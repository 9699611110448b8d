use mdbook_tailwindcss::scanner::{scan, Annotation};
use mdbook_tailwindcss::token::Token;
use pulldown_cmark::Event;

fn text(run: &str) -> Token<'static> {
    Token::TextRun(run.to_string())
}

fn record(start: usize, end: Option<usize>, payload: &str) -> Annotation {
    Annotation {
        paragraph_start_index: start,
        paragraph_end_index: end,
        payload: payload.to_string(),
    }
}

#[test]
fn scan_finds_annotated_paragraph() {
    let stream = vec![Token::ParagraphStart, text("{:.custom-class}"), Token::ParagraphEnd];
    assert_eq!(scan(&stream), vec![record(0, Some(2), "custom-class")]);
}

#[test]
fn scan_records_payload_without_dots() {
    let stream = vec![Token::ParagraphStart, text("{:.a.b text-red-500}"), Token::ParagraphEnd];
    assert_eq!(scan(&stream), vec![record(0, Some(2), "ab text-red-500")]);
}

#[test]
fn scan_ignores_plain_paragraph() {
    let stream = vec![Token::ParagraphStart, text("Hello"), Token::ParagraphEnd];
    assert_eq!(scan(&stream), Vec::new());
}

#[test]
fn scan_of_empty_stream() {
    assert_eq!(scan(&Vec::new()), Vec::new());
}

#[test]
fn scan_needs_paragraph_start_before() {
    assert_eq!(scan(&vec![text("{:.a}")]), Vec::new());
    assert_eq!(scan(&vec![text("{:.a}"), Token::ParagraphEnd]), Vec::new());
    assert_eq!(
        scan(&vec![Token::Other(Event::SoftBreak), text("{:.a}"), Token::ParagraphEnd]),
        Vec::new()
    );
    assert_eq!(
        scan(&vec![Token::ParagraphEnd, text("{:.a}"), Token::ParagraphEnd]),
        Vec::new()
    );
}

#[test]
fn scan_reads_only_the_first_text_run() {
    let stream = vec![Token::ParagraphStart, text("Hello"), text("{:.a}"), Token::ParagraphEnd];
    assert_eq!(scan(&stream), Vec::new());
    let stream = vec![
        Token::ParagraphStart,
        Token::Other(Event::SoftBreak),
        text("{:.a}"),
        Token::ParagraphEnd,
    ];
    assert_eq!(scan(&stream), Vec::new());
}

#[test]
fn scan_ignores_raw_markup_that_looks_like_an_annotation() {
    let stream =
        vec![Token::ParagraphStart, Token::RawMarkup("{:.a}".to_string()), Token::ParagraphEnd];
    assert_eq!(scan(&stream), Vec::new());
}

#[test]
fn scan_orders_matches_by_paragraph() {
    let stream = vec![
        Token::ParagraphStart,
        text("{:.first}"),
        text("one"),
        Token::ParagraphEnd,
        Token::ParagraphStart,
        text("plain"),
        Token::ParagraphEnd,
        Token::ParagraphStart,
        text("{:.second}"),
        Token::ParagraphEnd,
    ];
    assert_eq!(scan(&stream), vec![record(0, Some(3), "first"), record(7, Some(9), "second")]);
}

#[test]
fn scan_without_paragraph_end() {
    let stream = vec![
        Token::ParagraphStart,
        text("plain"),
        Token::ParagraphEnd,
        Token::ParagraphStart,
        text("{:.a}"),
        text("tail"),
    ];
    assert_eq!(scan(&stream), vec![record(3, None, "a")]);
}

#[test]
fn scan_annotation_as_last_token() {
    let stream = vec![Token::ParagraphStart, text("{:.a}")];
    assert_eq!(scan(&stream), vec![record(0, None, "a")]);
}

#[test]
fn scan_closes_only_the_latest_record() {
    let stream = vec![
        Token::ParagraphStart,
        text("{:.outer}"),
        Token::ParagraphStart,
        text("{:.inner}"),
        Token::ParagraphEnd,
        Token::ParagraphEnd,
    ];
    assert_eq!(scan(&stream), vec![record(0, None, "outer"), record(2, Some(4), "inner")]);
}

#[test]
fn scan_closes_a_record_once() {
    let stream = vec![
        Token::ParagraphStart,
        text("{:.a}"),
        Token::ParagraphEnd,
        text("between"),
        Token::ParagraphEnd,
    ];
    assert_eq!(scan(&stream), vec![record(0, Some(2), "a")]);
}

#[test]
fn scan_paragraph_end_before_any_record() {
    let stream = vec![
        Token::ParagraphEnd,
        Token::ParagraphStart,
        text("{:.a}"),
        Token::Other(Event::Rule),
        Token::ParagraphEnd,
    ];
    assert_eq!(scan(&stream), vec![record(1, Some(4), "a")]);
}

#[test]
fn scan_empty_payload() {
    let stream = vec![Token::ParagraphStart, text("{:.}"), Token::ParagraphEnd];
    assert_eq!(scan(&stream), vec![record(0, Some(2), "")]);
}

#[test]
fn scan_no_two_records_share_a_start() {
    let stream = vec![
        Token::ParagraphStart,
        text("{:.a}"),
        Token::ParagraphEnd,
        Token::ParagraphStart,
        text("{:.b}"),
        Token::ParagraphEnd,
        Token::ParagraphStart,
        text("{:.c}"),
        Token::ParagraphEnd,
    ];
    let found = scan(&stream);
    assert_eq!(found.len(), 3);
    for k in 1..found.len() {
        assert!(found[k - 1].paragraph_start_index < found[k].paragraph_start_index);
        assert!(found[k - 1].paragraph_end_index.unwrap() < found[k].paragraph_start_index);
    }
}
