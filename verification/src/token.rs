//! The token stream that the scanner reads and the rewriter writes.

use pulldown_cmark::Event;
use vstd::prelude::*;

verus! {

/// A markdown event of `pulldown_cmark`. Nothing is known of what it holds.
#[verifier::external_type_specification]
#[verifier::external_body]
pub struct ExEvent<'a>(Event<'a>);

/// One unit of a parsed markdown document.
///
/// Only paragraph boundaries, text runs and raw markup are told apart. Every
/// other event is carried through untouched in `Other`, and nothing looks
/// into it: an event that is put there by hand is never taken for a
/// paragraph boundary or a text run.
#[derive(Debug, PartialEq)]
pub enum Token<'a> {
    /// The start of a paragraph.
    ParagraphStart,
    /// The end of a paragraph.
    ParagraphEnd,
    /// A run of text.
    TextRun(String),
    /// Markup that is written out as it stands.
    RawMarkup(String),
    /// Any other event.
    Other(Event<'a>),
}

/// What a token is, with its text as a sequence of characters.
pub enum TokenView<'a> {
    ParagraphStart,
    ParagraphEnd,
    TextRun(Seq<char>),
    RawMarkup(Seq<char>),
    Other(Event<'a>),
}

impl<'a> View for Token<'a> {
    type V = TokenView<'a>;

    open spec fn view(&self) -> TokenView<'a> {
        match *self {
            Token::ParagraphStart => TokenView::ParagraphStart,
            Token::ParagraphEnd => TokenView::ParagraphEnd,
            Token::TextRun(text) => TokenView::TextRun(text@),
            Token::RawMarkup(markup) => TokenView::RawMarkup(markup@),
            Token::Other(event) => TokenView::Other(event),
        }
    }
}

impl<'a> DeepView for Token<'a> {
    type V = TokenView<'a>;

    open spec fn deep_view(&self) -> TokenView<'a> {
        self@
    }
}

/// `Event::clone` is derived in `pulldown_cmark`: the copy holds what the
/// event holds.
#[verifier::external_body]
fn clone_event<'a>(event: &Event<'a>) -> (copy: Event<'a>)
    ensures
        copy == *event,
{
    event.clone()
}

impl<'a> Clone for Token<'a> {
    fn clone(&self) -> (copy: Self)
        ensures
            copy == *self,
    {
        match self {
            Token::ParagraphStart => Token::ParagraphStart,
            Token::ParagraphEnd => Token::ParagraphEnd,
            Token::TextRun(text) => Token::TextRun(text.clone()),
            Token::RawMarkup(markup) => Token::RawMarkup(markup.clone()),
            Token::Other(event) => Token::Other(clone_event(event)),
        }
    }
}

} // verus!
