use mdbook_tailwindcss::process::{any_open_paragraph, style_paragraphs};
use mdbook_tailwindcss::token::Token;
use mdbook_tailwindcss::utilities::utility_style;
use mdbook_tailwindcss::scanner::Annotation;
use mdbook_tailwindcss::{
    process_document, process_tailwindcss, Processed, Tailwindcss, TransformError,
};
use pulldown_cmark::Event;

fn text(run: &str) -> Token<'static> {
    Token::TextRun(run.to_string())
}

fn markup(raw: &str) -> Token<'static> {
    Token::RawMarkup(raw.to_string())
}

fn nothing(_keyword: &str) -> Option<String> {
    None
}

fn padding(keyword: &str) -> Option<String> {
    if keyword == "p-4" {
        Some("padding:1rem;".to_string())
    } else {
        None
    }
}

fn ok(text: &str) -> Result<Processed, TransformError> {
    Ok(Processed { content: text.to_string(), malformed_trailing_structure: false })
}

#[test]
fn preprocessor_name() {
    assert_eq!(Tailwindcss::new().name(), "tailwindcss");
    assert_eq!(Tailwindcss::default().name(), "tailwindcss");
}

#[test]
fn preprocessor_new_is_default() {
    assert_eq!(Tailwindcss::new(), Tailwindcss::default());
    assert_eq!(Tailwindcss::new(), Tailwindcss);
}

#[test]
fn supports_only_html() {
    let preprocessor = Tailwindcss::new();
    assert!(preprocessor.supports_renderer("html"));
    assert!(!preprocessor.supports_renderer("pdf"));
    assert!(!preprocessor.supports_renderer("markdown"));
    assert!(!preprocessor.supports_renderer("HTML"));
    assert!(!preprocessor.supports_renderer("html "));
    assert!(!preprocessor.supports_renderer("htm"));
    assert!(!preprocessor.supports_renderer("htmx"));
    assert!(!preprocessor.supports_renderer(""));
}

#[test]
fn style_paragraphs_wraps_with_resolved_keywords() {
    let stream = vec![
        Token::ParagraphStart,
        text("{:.custom-class p-4}"),
        Token::Other(Event::SoftBreak),
        text("Hello"),
        Token::ParagraphEnd,
        Token::ParagraphStart,
        text("World"),
        Token::ParagraphEnd,
    ];
    assert_eq!(
        style_paragraphs(&stream, &padding),
        vec![
            markup("<div class=\"custom-class\" style=\"padding:1rem;\">"),
            Token::ParagraphStart,
            Token::Other(Event::SoftBreak),
            text("Hello"),
            Token::ParagraphEnd,
            markup("</div>"),
            Token::ParagraphStart,
            text("World"),
            Token::ParagraphEnd,
        ]
    );
}

#[test]
fn style_paragraphs_leaves_plain_stream() {
    let stream = vec![Token::ParagraphStart, text("Hello"), Token::ParagraphEnd];
    assert_eq!(style_paragraphs(&stream, &padding), stream);
}

#[test]
fn process_plain_document_is_unchanged() {
    assert_eq!(process_document("Hello\n\nWorld", &padding), ok("Hello\n\nWorld"));
    assert_eq!(process_document("", &padding), ok(""));
    assert_eq!(
        process_document("# Title\n\nSome *emphasis* and `code`.", &padding),
        ok("# Title\n\nSome *emphasis* and `code`.")
    );
}

#[test]
fn process_annotation_inside_a_paragraph_is_text() {
    assert_eq!(
        process_document("Hello {:.custom-class} world", &padding),
        ok("Hello {:.custom-class} world")
    );
}

#[test]
fn process_wraps_annotated_paragraph() {
    assert_eq!(
        process_document(
            "{:.custom-class}\nHello *world*\n\nNext paragraph\n\n# Title\n\n- item\n",
            &padding
        ),
        ok("<div class=\"custom-class\" style=\"\">\n\nHello *world*\n\n</div>\nNext paragraph\n\n# Title\n\n* item")
    );
}

#[test]
fn process_resolves_utilities() {
    assert_eq!(
        process_document("{:.p-4 custom}\nHello\n", &padding),
        ok("<div class=\"custom\" style=\"padding:1rem;\">\n\nHello\n\n</div>")
    );
}

#[test]
fn process_annotation_in_a_paragraph_of_its_own() {
    assert_eq!(
        process_document("{:.p-4 custom}\n\nHello\n", &padding),
        ok("<div class=\"custom\" style=\"padding:1rem;\">\n\n\n</div>\nHello")
    );
}

#[test]
fn process_annotation_at_the_end_of_the_document() {
    assert_eq!(
        process_document("text\n\n{:.a}", &padding),
        ok("text\n\n<div class=\"a\" style=\"\">\n\n\n</div>")
    );
}

#[test]
fn process_empty_annotation() {
    assert_eq!(
        process_document("{:.}\nHello", &padding),
        ok("<div class=\"\" style=\"\">\n\nHello\n\n</div>")
    );
}

#[test]
fn process_twice_is_stable() {
    let once = process_document("{:.custom-class}\nHello\n\nNext paragraph", &padding).unwrap();
    let twice = process_document(&once.content, &padding).unwrap();
    assert_eq!(twice, once);
}

#[test]
fn process_without_utilities() {
    assert_eq!(
        process_document("{:.p-4 x}\nHello", &nothing),
        ok("<div class=\"p-4 x\" style=\"\">\n\nHello\n\n</div>")
    );
}

#[test]
fn process_with_tailwind_utilities() {
    assert_eq!(
        process_tailwindcss("{:.text-red-500 lead}\nHello"),
        ok("<div class=\"lead\" style=\"color:rgba(239, 68, 68, 1);\">\n\nHello\n\n</div>")
    );
    assert_eq!(
        process_tailwindcss("{:.custom-class}\nHello *world*\n\nNext paragraph"),
        ok("<div class=\"custom-class\" style=\"\">\n\nHello *world*\n\n</div>\nNext paragraph")
    );
    assert_eq!(process_tailwindcss("Hello\n\nWorld"), ok("Hello\n\nWorld"));
}

#[test]
fn process_with_tailwind_does_not_stop_on_prose() {
    assert_eq!(
        process_tailwindcss("{:.prose p-4}\nHello"),
        ok("<div class=\"prose\" style=\"padding:1rem;\">\n\nHello\n\n</div>")
    );
}

#[test]
fn process_with_tailwind_agrees_with_process_document() {
    let content = "{:.p-4 custom font-bold}\nHello\n\nplain\n\n{:.lead}\nmore";
    assert_eq!(process_tailwindcss(content), process_document(content, &utility_style));
}

#[test]
fn process_reports_no_open_paragraph_for_parsed_markdown() {
    let document = process_document("{:.a}", &nothing).unwrap();
    assert!(!document.malformed_trailing_structure);
    assert_eq!(document.content, "<div class=\"a\" style=\"\">\n\n\n</div>");
}

#[test]
fn open_paragraph_is_reported() {
    let closed = Annotation {
        paragraph_start_index: 0,
        paragraph_end_index: Some(2),
        payload: "a".to_string(),
    };
    let open =
        Annotation { paragraph_start_index: 3, paragraph_end_index: None, payload: "b".to_string() };
    assert!(!any_open_paragraph(&Vec::new()));
    assert!(!any_open_paragraph(&vec![closed]));
    assert!(any_open_paragraph(&vec![open]));
    let closed = Annotation {
        paragraph_start_index: 0,
        paragraph_end_index: Some(2),
        payload: "a".to_string(),
    };
    let open =
        Annotation { paragraph_start_index: 3, paragraph_end_index: None, payload: "b".to_string() };
    assert!(any_open_paragraph(&vec![open, closed]));
}

#[test]
fn error_is_a_round_trip_failure() {
    let error = TransformError::RoundTripFailure;
    assert_eq!(error, TransformError::RoundTripFailure);
    assert_eq!(format!("{:?}", error), "RoundTripFailure");
}
