//! Wrapping the annotated paragraphs of a token stream.

use crate::matches::{AnnotationMatch, AnnotationMatchView};
use crate::token::{Token, TokenView};
use vstd::prelude::*;

verus! {

/// The markup that opens a wrapper.
pub open spec fn wrapper_open_markup(class_names: Seq<char>, style_declarations: Seq<char>) -> Seq<
    char,
> {
    "<div class=\""@ + class_names + "\" style=\""@ + style_declarations + "\">"@
}

/// The markup that closes a wrapper.
pub open spec fn wrapper_close_markup() -> Seq<char> {
    "</div>"@
}

/// The token that opens the wrapper of a match.
pub open spec fn wrapper_open(found: AnnotationMatchView) -> TokenView<'static> {
    TokenView::RawMarkup(wrapper_open_markup(found.class_names, found.style_declarations))
}

/// The token that closes a wrapper.
pub open spec fn wrapper_close() -> TokenView<'static> {
    TokenView::RawMarkup(wrapper_close_markup())
}

/// The index `i`, or the nearest end of a stream of `len` tokens.
pub open spec fn clipped(i: int, len: int) -> int {
    if i < 0 {
        0
    } else if i > len {
        len
    } else {
        i
    }
}

/// The tokens of the stream at the indices `from..to`, as far as there are
/// any.
pub open spec fn tokens_between<'a>(stream: Seq<TokenView<'a>>, from: int, to: int) -> Seq<
    TokenView<'a>,
> {
    let lo = clipped(from, stream.len() as int);
    let hi = clipped(to, stream.len() as int);
    if lo <= hi {
        stream.subrange(lo, hi)
    } else {
        Seq::empty()
    }
}

/// The index of the last token of a match: its paragraph end, or the last
/// token of the stream where it has none.
pub open spec fn span_end(found: AnnotationMatchView, len: int) -> int {
    match found.paragraph_end_index {
        Some(end) => end,
        None => len - 1,
    }
}

/// A matched paragraph in its wrapper: the wrapper's opening, the paragraph
/// start, the paragraph's tokens after the annotation up to its last token,
/// and the wrapper's closing.
pub open spec fn wrapped<'a>(stream: Seq<TokenView<'a>>, found: AnnotationMatchView) -> Seq<
    TokenView<'a>,
> {
    let start = found.paragraph_start_index;
    let end = span_end(found, stream.len() as int);
    seq![wrapper_open(found)] + tokens_between(stream, start, start + 1) + tokens_between(
        stream,
        start + 2,
        end + 1,
    ) + seq![wrapper_close()]
}

/// The rewritten stream from the match `k` on, when the tokens before
/// `last_end` are done.
///
/// For each match: the tokens up to its paragraph start, then the paragraph
/// in its wrapper. After the last match: the tokens that are left.
pub open spec fn rewritten_from<'a>(
    stream: Seq<TokenView<'a>>,
    matches: Seq<AnnotationMatchView>,
    k: int,
    last_end: int,
) -> Seq<TokenView<'a>>
    decreases matches.len() - k,
{
    if k < 0 || k >= matches.len() {
        tokens_between(stream, last_end, stream.len() as int)
    } else {
        let found = matches[k];
        let end = span_end(found, stream.len() as int);
        tokens_between(stream, last_end, found.paragraph_start_index) + wrapped(stream, found)
            + rewritten_from(stream, matches, k + 1, end + 1)
    }
}

/// The stream with each match wrapped and its annotation taken out.
pub open spec fn rewritten<'a>(stream: Seq<TokenView<'a>>, matches: Seq<AnnotationMatchView>) -> Seq<
    TokenView<'a>,
> {
    rewritten_from(stream, matches, 0, 0)
}

/// Do the matches fit the stream: does each one span its paragraph start, its
/// annotation and whatever follows up to a token of the stream, and does each
/// one begin after the one before it has ended?
pub open spec fn matches_fit(len: int, matches: Seq<AnnotationMatchView>) -> bool {
    &&& forall|k: int|
        0 <= k < matches.len() ==> {
            let found = #[trigger] matches[k];
            0 <= found.paragraph_start_index < span_end(found, len) < len
        }
    &&& forall|k: int|
        0 <= k < matches.len() - 1 ==> span_end(#[trigger] matches[k], len) < matches[k
            + 1].paragraph_start_index
}

/// The markup that opens a wrapper with these classes and this style.
pub fn open_markup(class_names: &str, style_declarations: &str) -> (markup: String)
    ensures
        markup@ == wrapper_open_markup(class_names@, style_declarations@),
{
    let mut markup = String::from_str("<div class=\"");
    markup.append(class_names);
    markup.append("\" style=\"");
    markup.append(style_declarations);
    markup.append("\">");
    markup
}

/// Appends copies of the tokens at `from..to`, as far as there are any.
fn copy_tokens<'a>(stream: &Vec<Token<'a>>, from: usize, to: usize, out: &mut Vec<Token<'a>>)
    ensures
        final(out).deep_view() == old(out).deep_view() + tokens_between(
            stream.deep_view(),
            from as int,
            to as int,
        ),
{
    let ghost tokens = stream.deep_view();
    let ghost done = out.deep_view();
    let stop = if to < stream.len() {
        to
    } else {
        stream.len()
    };
    if from >= stop {
        assert(out.deep_view() =~= done + tokens_between(tokens, from as int, to as int));
        return ;
    }
    let mut i: usize = from;
    assert(out.deep_view() =~= done + tokens.subrange(from as int, i as int));
    while i < stop
        invariant
            from <= i <= stop <= stream.len(),
            tokens == stream.deep_view(),
            out.deep_view() == done + tokens.subrange(from as int, i as int),
        decreases stop - i,
    {
        let ghost before = out.deep_view();
        out.push(stream[i].clone());
        assert(out.deep_view() =~= before.push(tokens[i as int]));
        assert(out.deep_view() =~= done + tokens.subrange(from as int, i + 1));
        i += 1;
    }
}

/// Where the matches fit, what is still to come from the match `k` on has one
/// token more for each match than the stream has left.
pub proof fn lemma_rewritten_from_len(
    stream: Seq<TokenView>,
    matches: Seq<AnnotationMatchView>,
    k: int,
    last_end: int,
)
    requires
        matches_fit(stream.len() as int, matches),
        0 <= k <= matches.len(),
        0 <= last_end <= stream.len(),
        k < matches.len() ==> last_end <= matches[k].paragraph_start_index,
    ensures
        rewritten_from(stream, matches, k, last_end).len() == (stream.len() - last_end) + (
        matches.len() - k),
    decreases matches.len() - k,
{
    if k < matches.len() {
        let found = matches[k];
        let end = span_end(found, stream.len() as int);
        if k + 1 < matches.len() {
            assert(end < matches[k + 1].paragraph_start_index);
        }
        lemma_rewritten_from_len(stream, matches, k + 1, end + 1);
    }
}

/// Where the matches fit, the rewritten stream has one token more for each
/// match than the stream: two for the wrapper, less one for the annotation.
pub proof fn lemma_rewritten_len(stream: Seq<TokenView>, matches: Seq<AnnotationMatchView>)
    requires
        matches_fit(stream.len() as int, matches),
    ensures
        rewritten(stream, matches).len() == stream.len() + matches.len(),
{
    if matches.len() > 0 {
        assert(0 <= matches[0].paragraph_start_index);
    }
    lemma_rewritten_from_len(stream, matches, 0, 0);
}

/// Without matches the stream is left as it is.
pub proof fn lemma_rewritten_without_matches(stream: Seq<TokenView>)
    ensures
        rewritten(stream, Seq::empty()) == stream,
{
    assert(rewritten(stream, Seq::empty()) =~= stream);
}

/// What is still to come does not depend on how far beyond the stream
/// `last_end` lies.
proof fn lemma_last_end_clipped(
    stream: Seq<TokenView>,
    matches: Seq<AnnotationMatchView>,
    k: int,
    last_end: int,
)
    ensures
        rewritten_from(stream, matches, k, last_end) == rewritten_from(
            stream,
            matches,
            k,
            clipped(last_end, stream.len() as int),
        ),
{
}

/// Appends a matched paragraph in its wrapper, and gives the index after the
/// paragraph's last token, no greater than the length of the stream.
fn wrap_paragraph<'a>(stream: &Vec<Token<'a>>, found: &AnnotationMatch, out: &mut Vec<Token<'a>>) -> (after_end:
    usize)
    ensures
        final(out).deep_view() == old(out).deep_view() + wrapped(stream.deep_view(), found@),
        after_end == clipped(
            span_end(found@, stream.len() as int) + 1,
            stream.len() as int,
        ),
{
    let ghost tokens = stream.deep_view();
    let ghost done = out.deep_view();
    let n = stream.len();
    let start = found.paragraph_start_index;
    let after_end = match found.paragraph_end_index {
        Some(end) => if end < n {
            end + 1
        } else {
            n
        },
        None => n,
    };
    out.push(
        Token::RawMarkup(open_markup(found.class_names.as_str(), found.style_declarations.as_str())),
    );
    let ghost opened = out.deep_view();
    assert(opened =~= done + seq![wrapper_open(found@)]);
    if start < n {
        out.push(stream[start].clone());
        assert(tokens[start as int] == stream[start as int]@);
    }
    let ghost begun = out.deep_view();
    assert(begun =~= opened + tokens_between(tokens, start as int, start + 1));
    match start.checked_add(2) {
        Some(from) => {
            copy_tokens(stream, from, after_end, out);
        },
        None => {},
    }
    let ghost copied = out.deep_view();
    assert(copied =~= begun + tokens_between(tokens, start + 2, span_end(found@, n as int) + 1));
    out.push(Token::RawMarkup(String::from_str("</div>")));
    assert(out.deep_view() =~= copied + seq![wrapper_close()]);
    assert(out.deep_view() =~= done + wrapped(tokens, found@));
    after_end
}

/// Copies the stream, and for each match puts the wrapper's opening before
/// the paragraph start, leaves the annotation out, and puts the wrapper's
/// closing after the last token of the paragraph.
pub fn rewrite<'a>(stream: &Vec<Token<'a>>, matches: &Vec<AnnotationMatch>) -> (out: Vec<Token<'a>>)
    ensures
        out.deep_view() == rewritten(stream.deep_view(), matches.deep_view()),
        matches_fit(stream.len() as int, matches.deep_view()) ==> out.len() == stream.len()
            + matches.len(),
{
    let ghost tokens = stream.deep_view();
    let ghost all = matches.deep_view();
    let n = stream.len();
    let mut out: Vec<Token<'a>> = Vec::new();
    let mut last_end: usize = 0;
    let mut k: usize = 0;
    assert(out.deep_view() + rewritten_from(tokens, all, 0, 0) =~= rewritten(tokens, all));
    while k < matches.len()
        invariant
            k <= matches.len(),
            n == stream.len(),
            last_end <= n,
            tokens == stream.deep_view(),
            all == matches.deep_view(),
            out.deep_view() + rewritten_from(tokens, all, k as int, last_end as int) == rewritten(
                tokens,
                all,
            ),
        decreases matches.len() - k,
    {
        let ghost done = out.deep_view();
        let found = &matches[k];
        assert(all[k as int] == found@);
        copy_tokens(stream, last_end, found.paragraph_start_index, &mut out);
        let after_end = wrap_paragraph(stream, found, &mut out);
        proof {
            let before = tokens_between(
                tokens,
                last_end as int,
                found.paragraph_start_index as int,
            );
            let rest = rewritten_from(tokens, all, k + 1, after_end as int);
            lemma_last_end_clipped(tokens, all, k + 1, span_end(found@, n as int) + 1);
            assert(rewritten_from(tokens, all, k as int, last_end as int) == before + wrapped(
                tokens,
                found@,
            ) + rest);
            assert(out.deep_view() == done + before + wrapped(tokens, found@));
            assert(done + before + wrapped(tokens, found@) + rest =~= done + (before + wrapped(
                tokens,
                found@,
            ) + rest));
        }
        last_end = after_end;
        k += 1;
    }
    copy_tokens(stream, last_end, n, &mut out);
    proof {
        if matches_fit(n as int, all) {
            lemma_rewritten_len(tokens, all);
        }
    }
    out
}

} // verus!
