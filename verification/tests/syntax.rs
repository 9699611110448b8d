use mdbook_tailwindcss::annotation::annotation_payload;
use mdbook_tailwindcss::keywords::{keywords, whitespace};
use mdbook_tailwindcss::text::{chars_of, string_of};

fn payload(text: &str) -> Option<String> {
    annotation_payload(text)
}

fn words(payload: &str) -> Vec<String> {
    keywords(payload)
}

#[test]
fn annotation_with_one_class() {
    assert_eq!(payload("{:.custom-class}"), Some("custom-class".to_string()));
    assert_eq!(payload("{:.text-red-500}"), Some("text-red-500".to_string()));
}

#[test]
fn annotation_with_empty_payload() {
    assert_eq!(payload("{:.}"), Some(String::new()));
}

#[test]
fn annotation_dots_are_removed() {
    assert_eq!(payload("{:.a.b text-red-500}"), Some("ab text-red-500".to_string()));
    assert_eq!(payload("{:.a.b}"), Some("ab".to_string()));
    assert_eq!(payload("{:....}"), Some(String::new()));
    assert_eq!(payload("{:.w-1.5 .x.}"), Some("w-15 x".to_string()));
}

#[test]
fn annotation_keeps_spaces_of_payload() {
    assert_eq!(payload("{:. a  b }"), Some(" a  b ".to_string()));
}

#[test]
fn annotation_needs_both_delimiters() {
    assert_eq!(payload("{:.a"), None);
    assert_eq!(payload("a}"), None);
    assert_eq!(payload("{:a}"), None);
    assert_eq!(payload("{.a}"), None);
    assert_eq!(payload(":.a}"), None);
    assert_eq!(payload("{:,a}"), None);
    assert_eq!(payload("{:.a)"), None);
    assert_eq!(payload("Hello"), None);
}

#[test]
fn annotation_delimiters_do_not_overlap() {
    assert_eq!(payload("{:."), None);
    assert_eq!(payload("{:}"), None);
    assert_eq!(payload("{}"), None);
}

#[test]
fn annotation_too_short() {
    assert_eq!(payload(""), None);
    assert_eq!(payload("a"), None);
    assert_eq!(payload("{"), None);
    assert_eq!(payload("}"), None);
    assert_eq!(payload("{:"), None);
}

#[test]
fn annotation_is_not_trimmed() {
    assert_eq!(payload(" {:.a}"), None);
    assert_eq!(payload("{:.a} "), None);
    assert_eq!(payload("{:.a}\n"), None);
    assert_eq!(payload("x{:.a}"), None);
    assert_eq!(payload("{:.a}x"), None);
}

#[test]
fn annotation_with_inner_braces() {
    assert_eq!(payload("{:.a}{:.b}"), Some("a}{:b".to_string()));
    assert_eq!(payload("{:.}}"), Some("}".to_string()));
}

#[test]
fn annotation_counts_characters_not_bytes() {
    assert_eq!(payload("{:.h\u{e9}llo}"), Some("h\u{e9}llo".to_string()));
    assert_eq!(payload("{:.\u{1f600}}"), Some("\u{1f600}".to_string()));
    assert_eq!(payload("{:\u{e9}}"), None);
}

#[test]
fn keywords_split_at_spaces() {
    assert_eq!(words("a b"), vec!["a".to_string(), "b".to_string()]);
    assert_eq!(
        words("ab text-red-500"),
        vec!["ab".to_string(), "text-red-500".to_string()]
    );
    assert_eq!(words("single"), vec!["single".to_string()]);
}

#[test]
fn keywords_discard_empty() {
    assert_eq!(words("  a   b "), vec!["a".to_string(), "b".to_string()]);
    assert_eq!(words("a  "), vec!["a".to_string()]);
    assert_eq!(words("  a"), vec!["a".to_string()]);
}

#[test]
fn keywords_of_empty_payload() {
    assert_eq!(words(""), Vec::<String>::new());
    assert_eq!(words(" "), Vec::<String>::new());
    assert_eq!(words(" \t \n"), Vec::<String>::new());
}

#[test]
fn keywords_split_at_any_whitespace() {
    assert_eq!(
        words("a\tb\u{a0}c\u{3000}d\ne\u{2003}f"),
        vec![
            "a".to_string(),
            "b".to_string(),
            "c".to_string(),
            "d".to_string(),
            "e".to_string(),
            "f".to_string()
        ]
    );
}

#[test]
fn keywords_keep_other_separators() {
    assert_eq!(words("a,b;c"), vec!["a,b;c".to_string()]);
    assert_eq!(words("a\u{200b}b"), vec!["a\u{200b}b".to_string()]);
}

#[test]
fn keywords_agree_with_split_whitespace() {
    let payloads = [
        "",
        " ",
        "a",
        " a",
        "a ",
        "a b",
        "a  b",
        "\ta\nb\r\nc ",
        "text-red-500 custom  p-4\u{a0}x",
        "\u{1680}a\u{2028}b\u{2029}c\u{202f}d\u{205f}e\u{85}f",
    ];
    for payload in payloads {
        let expected: Vec<String> = payload.split_whitespace().map(|w| w.to_string()).collect();
        assert_eq!(words(payload), expected);
    }
}

#[test]
fn keywords_are_never_empty_nor_spaced() {
    for word in words(" a\t bc  \u{a0}def \n") {
        assert!(!word.is_empty());
        assert!(word.chars().all(|c| !whitespace(c)));
    }
}

#[test]
fn whitespace_code_points() {
    let spaces = [
        '\u{9}', '\u{a}', '\u{b}', '\u{c}', '\u{d}', ' ', '\u{85}', '\u{a0}', '\u{1680}',
        '\u{2000}', '\u{2001}', '\u{2005}', '\u{200a}', '\u{2028}', '\u{2029}', '\u{202f}',
        '\u{205f}', '\u{3000}',
    ];
    for c in spaces {
        assert!(whitespace(c));
    }
    let others = [
        'a', '.', '-', '\u{0}', '\u{8}', '\u{e}', '\u{1f}', '!', '\u{84}', '\u{86}', '\u{9f}',
        '\u{a1}', '\u{180e}', '\u{1fff}', '\u{200b}', '\u{2027}', '\u{202a}', '\u{2060}',
        '\u{2fff}', '\u{3001}', '\u{feff}',
    ];
    for c in others {
        assert!(!whitespace(c));
    }
}

#[test]
fn whitespace_is_the_unicode_property() {
    let mut n: u32 = 0;
    while n <= 0x10ffff {
        if let Some(c) = char::from_u32(n) {
            assert_eq!(whitespace(c), c.is_whitespace());
        }
        n += 1;
    }
}

#[test]
fn chars_of_gives_each_character() {
    assert_eq!(chars_of(""), Vec::<char>::new());
    assert_eq!(chars_of("a\u{e9}\u{1f600}"), vec!['a', '\u{e9}', '\u{1f600}']);
}

#[test]
fn string_of_takes_a_range() {
    let chars = vec!['a', 'b', 'c', 'd'];
    assert_eq!(string_of(&chars, 1, 3), "bc".to_string());
    assert_eq!(string_of(&chars, 0, 4), "abcd".to_string());
    assert_eq!(string_of(&chars, 2, 2), String::new());
    assert_eq!(string_of(&chars, 4, 4), String::new());
}
