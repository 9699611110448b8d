use mdbook_tailwindcss::matches::AnnotationMatch;
use mdbook_tailwindcss::resolver::{partition, Resolved};
use mdbook_tailwindcss::rewriter::{open_markup, rewrite};
use mdbook_tailwindcss::scanner::scan;
use mdbook_tailwindcss::token::Token;
use pulldown_cmark::{Event, Tag};

fn text(run: &str) -> Token<'static> {
    Token::TextRun(run.to_string())
}

fn markup(raw: &str) -> Token<'static> {
    Token::RawMarkup(raw.to_string())
}

fn found(start: usize, end: Option<usize>, classes: &str, style: &str) -> AnnotationMatch {
    AnnotationMatch {
        paragraph_start_index: start,
        paragraph_end_index: end,
        class_names: classes.to_string(),
        style_declarations: style.to_string(),
    }
}

fn wrap_with(stream: &Vec<Token<'static>>, resolved: Vec<Vec<Resolved>>) -> Vec<Token<'static>> {
    let records = scan(stream);
    assert_eq!(records.len(), resolved.len());
    let mut matches = Vec::new();
    for (record, keywords) in records.iter().zip(resolved.iter()) {
        let (class_names, style_declarations) = partition(keywords);
        matches.push(AnnotationMatch {
            paragraph_start_index: record.paragraph_start_index,
            paragraph_end_index: record.paragraph_end_index,
            class_names,
            style_declarations,
        });
    }
    rewrite(stream, &matches)
}

#[test]
fn open_markup_carries_classes_and_style() {
    assert_eq!(open_markup("a b", "color:red;"), "<div class=\"a b\" style=\"color:red;\">");
    assert_eq!(open_markup("", ""), "<div class=\"\" style=\"\">");
    assert_eq!(open_markup("custom-class", ""), "<div class=\"custom-class\" style=\"\">");
}

#[test]
fn scenario_utility_becomes_style() {
    let stream = vec![
        Token::ParagraphStart,
        text("{:.text-red-500}"),
        Token::Other(Event::SoftBreak),
        text("Hello"),
        Token::ParagraphEnd,
    ];
    let resolved = vec![vec![Resolved {
        keyword: "text-red-500".to_string(),
        declaration: Some("color:red;".to_string()),
    }]];
    assert_eq!(
        wrap_with(&stream, resolved),
        vec![
            markup("<div class=\"\" style=\"color:red;\">"),
            Token::ParagraphStart,
            Token::Other(Event::SoftBreak),
            text("Hello"),
            Token::ParagraphEnd,
            markup("</div>"),
        ]
    );
}

#[test]
fn scenario_unresolved_keyword_becomes_class() {
    let stream = vec![Token::ParagraphStart, text("{:.custom-class}"), Token::ParagraphEnd];
    let resolved = vec![vec![Resolved { keyword: "custom-class".to_string(), declaration: None }]];
    assert_eq!(
        wrap_with(&stream, resolved),
        vec![
            markup("<div class=\"custom-class\" style=\"\">"),
            Token::ParagraphStart,
            Token::ParagraphEnd,
            markup("</div>"),
        ]
    );
}

#[test]
fn scenario_classes_and_style_together() {
    let stream = vec![Token::ParagraphStart, text("{:.a b text-red-500}"), Token::ParagraphEnd];
    let resolved = vec![vec![
        Resolved { keyword: "a".to_string(), declaration: None },
        Resolved { keyword: "b".to_string(), declaration: None },
        Resolved { keyword: "text-red-500".to_string(), declaration: Some("color:red;".to_string()) },
    ]];
    assert_eq!(
        wrap_with(&stream, resolved),
        vec![
            markup("<div class=\"a b\" style=\"color:red;\">"),
            Token::ParagraphStart,
            Token::ParagraphEnd,
            markup("</div>"),
        ]
    );
}

#[test]
fn scenario_dotted_keywords_run_together() {
    let stream = vec![Token::ParagraphStart, text("{:.a.b text-red-500}"), Token::ParagraphEnd];
    let records = scan(&stream);
    assert_eq!(records.len(), 1);
    assert_eq!(records[0].payload, "ab text-red-500");
    let resolved = vec![vec![
        Resolved { keyword: "ab".to_string(), declaration: None },
        Resolved { keyword: "text-red-500".to_string(), declaration: Some("color:red;".to_string()) },
    ]];
    assert_eq!(
        wrap_with(&stream, resolved),
        vec![
            markup("<div class=\"ab\" style=\"color:red;\">"),
            Token::ParagraphStart,
            Token::ParagraphEnd,
            markup("</div>"),
        ]
    );
}

#[test]
fn scenario_plain_paragraph_passes_through() {
    let stream = vec![
        Token::Other(Event::Start(Tag::Emphasis)),
        Token::ParagraphStart,
        text("Hello {:.a}"),
        Token::Other(Event::HardBreak),
        text("{:.b}"),
        Token::ParagraphEnd,
        markup("<b>"),
    ];
    assert_eq!(scan(&stream), Vec::new());
    assert_eq!(rewrite(&stream, &Vec::new()), stream);
}

#[test]
fn scenario_annotation_without_paragraph_end() {
    let stream = vec![
        Token::ParagraphStart,
        text("before"),
        Token::ParagraphEnd,
        Token::ParagraphStart,
        text("{:.a}"),
        text("tail"),
        Token::Other(Event::Rule),
    ];
    let resolved = vec![vec![Resolved { keyword: "a".to_string(), declaration: None }]];
    assert_eq!(
        wrap_with(&stream, resolved),
        vec![
            Token::ParagraphStart,
            text("before"),
            Token::ParagraphEnd,
            markup("<div class=\"a\" style=\"\">"),
            Token::ParagraphStart,
            text("tail"),
            Token::Other(Event::Rule),
            markup("</div>"),
        ]
    );
}

#[test]
fn scenario_annotation_as_last_token() {
    let stream = vec![Token::ParagraphStart, text("{:.a}")];
    let resolved = vec![vec![Resolved { keyword: "a".to_string(), declaration: None }]];
    assert_eq!(
        wrap_with(&stream, resolved),
        vec![markup("<div class=\"a\" style=\"\">"), Token::ParagraphStart, markup("</div>")]
    );
}

#[test]
fn empty_payload_still_wraps() {
    let stream = vec![
        Token::ParagraphStart,
        text("{:.}"),
        text("content"),
        Token::ParagraphEnd,
        Token::ParagraphStart,
        text("next"),
        Token::ParagraphEnd,
    ];
    let records = scan(&stream);
    assert_eq!(records.len(), 1);
    assert_eq!(records[0].payload, "");
    assert_eq!(partition(&Vec::new()), (String::new(), String::new()));
    assert_eq!(
        wrap_with(&stream, vec![Vec::new()]),
        vec![
            markup("<div class=\"\" style=\"\">"),
            Token::ParagraphStart,
            text("content"),
            Token::ParagraphEnd,
            markup("</div>"),
            Token::ParagraphStart,
            text("next"),
            Token::ParagraphEnd,
        ]
    );
}

#[test]
fn rewrite_without_matches_is_identity() {
    let stream = vec![
        Token::Other(Event::Start(Tag::BlockQuote)),
        Token::ParagraphStart,
        text("Hello"),
        Token::Other(Event::Code("x".into())),
        Token::ParagraphEnd,
        Token::Other(Event::End(Tag::BlockQuote)),
        markup("<hr>"),
    ];
    assert_eq!(rewrite(&stream, &Vec::new()), stream);
    assert_eq!(rewrite(&Vec::new(), &Vec::new()), Vec::new());
}

#[test]
fn rewrite_two_matches() {
    let stream = vec![
        text("lead"),
        Token::ParagraphStart,
        text("{:.a}"),
        text("one"),
        Token::ParagraphEnd,
        Token::Other(Event::Rule),
        Token::ParagraphStart,
        text("{:.b}"),
        text("two"),
        Token::ParagraphEnd,
        text("trail"),
    ];
    let matches = vec![found(1, Some(4), "a", ""), found(6, Some(9), "", "x:y;")];
    assert_eq!(
        rewrite(&stream, &matches),
        vec![
            text("lead"),
            markup("<div class=\"a\" style=\"\">"),
            Token::ParagraphStart,
            text("one"),
            Token::ParagraphEnd,
            markup("</div>"),
            Token::Other(Event::Rule),
            markup("<div class=\"\" style=\"x:y;\">"),
            Token::ParagraphStart,
            text("two"),
            Token::ParagraphEnd,
            markup("</div>"),
            text("trail"),
        ]
    );
}

#[test]
fn rewrite_adds_one_token_per_match() {
    let stream = vec![
        Token::ParagraphStart,
        text("{:.a}"),
        Token::ParagraphEnd,
        Token::ParagraphStart,
        text("plain"),
        Token::ParagraphEnd,
        Token::ParagraphStart,
        text("{:.b}"),
        text("more"),
        Token::ParagraphEnd,
        Token::ParagraphStart,
        text("{:.c}"),
    ];
    let matches =
        vec![found(0, Some(2), "a", ""), found(6, Some(9), "b", ""), found(10, None, "c", "")];
    let out = rewrite(&stream, &matches);
    assert_eq!(out.len(), stream.len() + matches.len());
    assert_eq!(rewrite(&stream, &vec![found(6, Some(9), "b", "")]).len(), stream.len() + 1);
}

#[test]
fn rewrite_end_beyond_stream_takes_the_rest() {
    let stream = vec![Token::ParagraphStart, text("{:.a}"), text("x"), text("y")];
    let out = rewrite(&stream, &vec![found(0, Some(100), "a", "")]);
    assert_eq!(
        out,
        vec![
            markup("<div class=\"a\" style=\"\">"),
            Token::ParagraphStart,
            text("x"),
            text("y"),
            markup("</div>"),
        ]
    );
    let out = rewrite(&stream, &vec![found(0, Some(usize::MAX), "a", "")]);
    assert_eq!(out.len(), 5);
}

#[test]
fn rewrite_start_beyond_stream_only_adds_the_wrapper() {
    let stream = vec![text("x"), text("y")];
    let out = rewrite(&stream, &vec![found(5, None, "a", "")]);
    assert_eq!(
        out,
        vec![text("x"), text("y"), markup("<div class=\"a\" style=\"\">"), markup("</div>")]
    );
    let out = rewrite(&stream, &vec![found(usize::MAX, Some(usize::MAX), "a", "")]);
    assert_eq!(
        out,
        vec![text("x"), text("y"), markup("<div class=\"a\" style=\"\">"), markup("</div>")]
    );
}

#[test]
fn rewrite_on_empty_stream() {
    let out = rewrite(&Vec::new(), &vec![found(0, None, "a", "")]);
    assert_eq!(out, vec![markup("<div class=\"a\" style=\"\">"), markup("</div>")]);
}

#[test]
fn rewrite_overlapping_matches() {
    let stream = vec![
        Token::ParagraphStart,
        text("{:.outer}"),
        Token::ParagraphStart,
        text("{:.inner}"),
        Token::ParagraphEnd,
        Token::ParagraphEnd,
    ];
    let matches = vec![found(0, None, "outer", ""), found(2, Some(4), "inner", "")];
    assert_eq!(
        rewrite(&stream, &matches),
        vec![
            markup("<div class=\"outer\" style=\"\">"),
            Token::ParagraphStart,
            Token::ParagraphStart,
            text("{:.inner}"),
            Token::ParagraphEnd,
            Token::ParagraphEnd,
            markup("</div>"),
            markup("<div class=\"inner\" style=\"\">"),
            Token::ParagraphStart,
            Token::ParagraphEnd,
            markup("</div>"),
            Token::ParagraphEnd,
        ]
    );
}

#[test]
fn second_pass_finds_nothing() {
    let stream = vec![
        Token::ParagraphStart,
        text("{:.a}"),
        text("one"),
        Token::ParagraphEnd,
        Token::ParagraphStart,
        text("plain"),
        Token::ParagraphEnd,
        Token::ParagraphStart,
        text("{:.b}"),
        Token::ParagraphEnd,
    ];
    let resolved = vec![
        vec![Resolved { keyword: "a".to_string(), declaration: None }],
        vec![Resolved { keyword: "b".to_string(), declaration: None }],
    ];
    let once = wrap_with(&stream, resolved);
    assert_eq!(once.len(), stream.len() + 2);
    assert_eq!(scan(&once), Vec::new());
    assert_eq!(wrap_with(&once, Vec::new()), once);
}

#[test]
fn second_pass_finds_an_annotation_behind_an_annotation() {
    let stream = vec![Token::ParagraphStart, text("{:.a}"), text("{:.b}"), Token::ParagraphEnd];
    let resolved = vec![vec![Resolved { keyword: "a".to_string(), declaration: None }]];
    let once = wrap_with(&stream, resolved);
    let again = scan(&once);
    assert_eq!(again.len(), 1);
    assert_eq!(again[0].paragraph_start_index, 1);
    assert_eq!(again[0].payload, "b");
}

#[test]
fn token_clone_is_equal() {
    let tokens = vec![
        Token::ParagraphStart,
        Token::ParagraphEnd,
        text("a"),
        markup("<b>"),
        Token::Other(Event::TaskListMarker(true)),
    ];
    for token in &tokens {
        assert_eq!(&token.clone(), token);
    }
}

#[test]
fn plain_paragraph_beside_annotated_ones_is_kept_as_one_run() {
    let stream = vec![
        Token::ParagraphStart,
        text("{:.a}"),
        text("one"),
        Token::ParagraphEnd,
        Token::ParagraphStart,
        text("plain"),
        Token::Other(Event::SoftBreak),
        text("{:.not-first}"),
        Token::ParagraphEnd,
        Token::ParagraphStart,
        text("{:.b}"),
        Token::ParagraphEnd,
        Token::ParagraphStart,
        text("last"),
        Token::ParagraphEnd,
    ];
    let resolved = vec![
        vec![Resolved { keyword: "a".to_string(), declaration: None }],
        vec![Resolved { keyword: "b".to_string(), declaration: None }],
    ];
    let out = wrap_with(&stream, resolved);
    assert_eq!(out.len(), stream.len() + 2);
    assert_eq!(out[5..10], stream[4..9]);
    assert_eq!(out[4], markup("</div>"));
    assert_eq!(out[10], markup("<div class=\"b\" style=\"\">"));
    assert_eq!(out[14..17], stream[12..15]);
    assert_eq!(out[13], markup("</div>"));
    let wrappers = out.iter().filter(|t| matches!(t, Token::RawMarkup(_))).count();
    assert_eq!(wrappers, 4);
}

#[test]
fn wrapper_stands_around_its_paragraph() {
    let stream = vec![
        text("lead"),
        Token::ParagraphStart,
        text("{:.a}"),
        text("one"),
        text("two"),
        Token::ParagraphEnd,
        text("between"),
        Token::ParagraphStart,
        text("{:.b}"),
        Token::ParagraphEnd,
    ];
    let matches = vec![found(1, Some(5), "a", ""), found(7, Some(9), "b", "")];
    let out = rewrite(&stream, &matches);
    assert_eq!(out[1], markup("<div class=\"a\" style=\"\">"));
    assert_eq!(out[2], stream[1]);
    assert_eq!(out[3..6], stream[3..6]);
    assert_eq!(out[6], markup("</div>"));
    assert_eq!(out[7], stream[6]);
    assert_eq!(out[8], markup("<div class=\"b\" style=\"\">"));
    assert_eq!(out[9], stream[7]);
    assert_eq!(out[10], stream[9]);
    assert_eq!(out[11], markup("</div>"));
}
