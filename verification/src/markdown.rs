//! Markdown text to tokens and back, by `pulldown_cmark` and
//! `pulldown_cmark_to_cmark`.

use crate::token::{Token, TokenView};
use pulldown_cmark::{CowStr, Event, Parser, Tag};
use pulldown_cmark_to_cmark::cmark;
use vstd::prelude::*;

verus! {

/// The error of a writer of formatted text. Nothing is known of what it holds.
#[verifier::external_type_specification]
#[verifier::external_body]
pub struct ExFmtError(std::fmt::Error);

/// The tokens that `pulldown_cmark::Parser::new`, without extensions, reads
/// from `text`.
pub uninterp spec fn parsed_markdown(text: Seq<char>) -> Seq<TokenView<'static>>;

/// The markdown text that `pulldown_cmark_to_cmark::cmark` writes for
/// `tokens`, or `None` where it fails.
pub uninterp spec fn rendered_markdown(tokens: Seq<TokenView<'static>>) -> Option<Seq<char>>;

/// `Parser::new` is an iterator over the events of `text`. Each event becomes
/// one token: the start and the end of a paragraph, a text event and an HTML
/// event become the token that is named after them, with the same text; any
/// other event is kept as it is.
#[verifier::external_body]
pub(crate) fn parse_markdown<'a>(text: &'a str) -> (tokens: Vec<Token<'a>>)
    ensures
        tokens.deep_view() == parsed_markdown(text@),
{
    Parser::new(text).map(|event| match event {
        Event::Start(Tag::Paragraph) => Token::ParagraphStart,
        Event::End(Tag::Paragraph) => Token::ParagraphEnd,
        Event::Text(run) => Token::TextRun(run.into_string()),
        Event::Html(markup) => Token::RawMarkup(markup.into_string()),
        other => Token::Other(other),
    }).collect()
}

/// `cmark` writes the events as markdown into a string, which cannot fail as
/// a writer; `cmark` hands on the writer's errors and has none of its own.
/// Each token becomes the event that it stands for.
#[verifier::external_body]
pub(crate) fn render_markdown<'a>(tokens: Vec<Token<'a>>) -> (text: Result<String, std::fmt::Error>)
    ensures
        match text {
            Ok(written) => rendered_markdown(tokens.deep_view()) == Some(written@),
            Err(_) => rendered_markdown(tokens.deep_view()) is None,
        },
{
    let mut written = String::new();
    let events = tokens.into_iter().map(|token| match token {
        Token::ParagraphStart => Event::Start(Tag::Paragraph),
        Token::ParagraphEnd => Event::End(Tag::Paragraph),
        Token::TextRun(run) => Event::Text(CowStr::from(run)),
        Token::RawMarkup(markup) => Event::Html(CowStr::from(markup)),
        Token::Other(event) => event,
    });
    match cmark(events, &mut written) {
        Ok(_) => Ok(written),
        Err(error) => Err(error),
    }
}

} // verus!
