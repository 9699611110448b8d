//! Where the tokens of a stream stand in the rewritten stream.

use crate::laws::{lemma_well_nested_fit, well_nested};
use crate::matches::{same_paragraphs, AnnotationMatchView};
use crate::rewriter::{
    matches_fit, rewritten, rewritten_from, span_end, tokens_between, wrapped, wrapper_close,
    wrapper_open,
};
use crate::scanner::{
    annotation_at, closes_within, lemma_scanned_prefix_records, record_stands, scanned,
    search_limit,
};
use crate::token::TokenView;
use vstd::prelude::*;

verus! {

/// Do exactly the first `c` matches lie before the token at `i`, and the
/// others after it?
pub open spec fn matches_before(
    len: int,
    matches: Seq<AnnotationMatchView>,
    i: int,
    c: int,
) -> bool {
    &&& 0 <= c <= matches.len()
    &&& forall|k: int| 0 <= k < c ==> span_end(#[trigger] matches[k], len) < i
    &&& forall|k: int| c <= k < matches.len() ==> i < (#[trigger] matches[k]).paragraph_start_index
}

/// Is `stream[a..=b]` a paragraph: a paragraph start, its paragraph end, and
/// no paragraph end between them?
pub open spec fn paragraph(stream: Seq<TokenView>, a: int, b: int) -> bool {
    &&& 0 <= a < b < stream.len()
    &&& stream[a] is ParagraphStart
    &&& stream[b] is ParagraphEnd
    &&& forall|j: int| a < j < b ==> !(#[trigger] stream[j] is ParagraphEnd)
}

/// A matched paragraph in its wrapper has two tokens more than the match
/// spans, less one for the annotation.
proof fn lemma_wrapped_len(stream: Seq<TokenView>, found: AnnotationMatchView)
    requires
        0 <= found.paragraph_start_index < span_end(found, stream.len() as int) < stream.len(),
    ensures
        wrapped(stream, found).len() == span_end(found, stream.len() as int)
            - found.paragraph_start_index + 2,
        wrapped(stream, found)[0] == wrapper_open(found),
        wrapped(stream, found)[1] == stream[found.paragraph_start_index],
        wrapped(stream, found).last() == wrapper_close(),
        forall|t: int|
            found.paragraph_start_index + 2 <= t <= span_end(found, stream.len() as int)
                ==> wrapped(stream, found)[t - found.paragraph_start_index] == #[trigger] stream[t],
{
    let start = found.paragraph_start_index;
    let end = span_end(found, stream.len() as int);
    let content = tokens_between(stream, start + 2, end + 1);
    assert(tokens_between(stream, start, start + 1) =~= seq![stream[start]]);
    assert(content.len() == end - start - 1);
    assert forall|t: int| start + 2 <= t <= end implies wrapped(stream, found)[t - start]
        == #[trigger] stream[t] by {
        assert(content[t - start - 2] == stream[t]);
    }
}

/// A token that lies outside every match stands, in what is still to come
/// from the match `k` on, as many places further as matches lie between.
proof fn lemma_token_kept_from(
    stream: Seq<TokenView>,
    matches: Seq<AnnotationMatchView>,
    k: int,
    last_end: int,
    i: int,
    c: int,
)
    requires
        matches_fit(stream.len() as int, matches),
        matches_before(stream.len() as int, matches, i, c),
        0 <= k <= c,
        0 <= last_end <= i < stream.len(),
        k < matches.len() ==> last_end <= matches[k].paragraph_start_index,
    ensures
        0 <= i - last_end + c - k < rewritten_from(stream, matches, k, last_end).len(),
        rewritten_from(stream, matches, k, last_end)[i - last_end + c - k] == stream[i],
    decreases matches.len() - k,
{
    let n = stream.len() as int;
    if k < matches.len() {
        let found = matches[k];
        let start = found.paragraph_start_index;
        let end = span_end(found, n);
        let before = tokens_between(stream, last_end, start);
        let rest = rewritten_from(stream, matches, k + 1, end + 1);
        lemma_wrapped_len(stream, found);
        assert(before.len() == start - last_end);
        if k == c {
            assert(before[i - last_end] == stream[i]);
        } else {
            if k + 1 < matches.len() {
                assert(end < matches[k + 1].paragraph_start_index);
            }
            lemma_token_kept_from(stream, matches, k + 1, end + 1, i, c);
            assert(rest[i - (end + 1) + c - (k + 1)] == stream[i]);
        }
    }
}

/// A token that lies outside every match is kept: it stands as many places
/// further as matches lie before it, one for each.
pub proof fn lemma_token_kept(
    stream: Seq<TokenView>,
    matches: Seq<AnnotationMatchView>,
    i: int,
    c: int,
)
    requires
        matches_fit(stream.len() as int, matches),
        matches_before(stream.len() as int, matches, i, c),
        0 <= i < stream.len(),
    ensures
        0 <= i + c < rewritten(stream, matches).len(),
        rewritten(stream, matches)[i + c] == stream[i],
{
    if matches.len() > 0 {
        assert(0 <= matches[0].paragraph_start_index);
    }
    lemma_token_kept_from(stream, matches, 0, 0, i, c);
}

/// The tokens outside the matches keep their order: of two of them the later
/// has no fewer matches before it, and stands later in the rewritten stream.
pub proof fn lemma_tokens_keep_order(
    len: int,
    matches: Seq<AnnotationMatchView>,
    i: int,
    c: int,
    j: int,
    d: int,
)
    requires
        matches_fit(len, matches),
        matches_before(len, matches, i, c),
        matches_before(len, matches, j, d),
        i < j,
    ensures
        c <= d,
        i + c < j + d,
{
    if d < c {
        assert(span_end(matches[d], len) < i);
        assert(j < matches[d].paragraph_start_index);
    }
}

/// The wrapper of the match `j` stands, in what is still to come from the
/// match `k` on, around the paragraph of the match: its opening before the
/// paragraph start, then the paragraph's tokens after the annotation, then
/// its closing.
proof fn lemma_wrapper_places_from(
    stream: Seq<TokenView>,
    matches: Seq<AnnotationMatchView>,
    k: int,
    last_end: int,
    j: int,
)
    requires
        matches_fit(stream.len() as int, matches),
        0 <= k <= j < matches.len(),
        0 <= last_end <= matches[k].paragraph_start_index,
    ensures
        ({
            let out = rewritten_from(stream, matches, k, last_end);
            let start = matches[j].paragraph_start_index;
            let end = span_end(matches[j], stream.len() as int);
            let shift = j - k - last_end;
            &&& 0 <= start + shift
            &&& end + shift + 1 < out.len()
            &&& out[start + shift] == wrapper_open(matches[j])
            &&& out[start + shift + 1] == stream[start]
            &&& forall|t: int| start + 2 <= t <= end ==> out[t + shift] == #[trigger] stream[t]
            &&& out[end + shift + 1] == wrapper_close()
        }),
    decreases matches.len() - k,
{
    let n = stream.len() as int;
    let found = matches[k];
    let start = found.paragraph_start_index;
    let end = span_end(found, n);
    let before = tokens_between(stream, last_end, start);
    let rest = rewritten_from(stream, matches, k + 1, end + 1);
    let out = rewritten_from(stream, matches, k, last_end);
    lemma_wrapped_len(stream, found);
    assert(before.len() == start - last_end);
    if j == k {
        let w = wrapped(stream, found);
        assert(out[start - last_end] == w[0]);
        assert(out[start - last_end + 1] == w[1]);
        assert(out[end - last_end + 1] == w[w.len() - 1]);
        assert forall|t: int| start + 2 <= t <= end implies out[t - last_end] == #[trigger] stream[t] by {
            assert(out[t - last_end] == w[t - start]);
        }
    } else {
        assert(end < matches[k + 1].paragraph_start_index);
        lemma_wrapper_places_from(stream, matches, k + 1, end + 1, j);
        let s = matches[j].paragraph_start_index;
        let e = span_end(matches[j], n);
        let inner = j - (k + 1) - (end + 1);
        let offset = before.len() + wrapped(stream, found).len();
        assert(offset + inner == j - k - last_end);
        assert(out[s + inner + offset] == rest[s + inner]);
        assert(out[s + inner + 1 + offset] == rest[s + inner + 1]);
        assert(out[e + inner + 1 + offset] == rest[e + inner + 1]);
        assert forall|t: int| s + 2 <= t <= e implies out[t + (j - k - last_end)]
            == #[trigger] stream[t] by {
            assert(out[t + inner + offset] == rest[t + inner]);
        }
    }
}

/// The wrapper of the match `j` stands around the paragraph of the match:
/// its opening `j` places further than the paragraph start stood, then the
/// paragraph start, then the paragraph's tokens after the annotation, each
/// `j` places further than it stood, then its closing.
pub proof fn lemma_wrapper_places(stream: Seq<TokenView>, matches: Seq<AnnotationMatchView>, j: int)
    requires
        matches_fit(stream.len() as int, matches),
        0 <= j < matches.len(),
    ensures
        ({
            let out = rewritten(stream, matches);
            let start = matches[j].paragraph_start_index;
            let end = span_end(matches[j], stream.len() as int);
            &&& end + j + 1 < out.len()
            &&& out[start + j] == wrapper_open(matches[j])
            &&& out[start + j + 1] == stream[start]
            &&& forall|t: int| start + 2 <= t <= end ==> out[t + j] == #[trigger] stream[t]
            &&& out[end + j + 1] == wrapper_close()
        }),
{
    assert(0 <= matches[0].paragraph_start_index);
    lemma_wrapper_places_from(stream, matches, 0, 0, j);
}

/// Where the matches fit, each ends before every later one starts.
proof fn lemma_fit_in_order(len: int, matches: Seq<AnnotationMatchView>, j: int, k: int)
    requires
        matches_fit(len, matches),
        0 <= j < k < matches.len(),
    ensures
        span_end(matches[j], len) < matches[k].paragraph_start_index,
    decreases k - j,
{
    if j + 1 < k {
        lemma_fit_in_order(len, matches, j + 1, k);
        assert(span_end(matches[j], len) < matches[j + 1].paragraph_start_index);
        assert(matches[j + 1].paragraph_start_index < span_end(matches[j + 1], len));
    } else {
        assert(span_end(matches[j], len) < matches[j + 1].paragraph_start_index);
    }
}

/// In a well-nested stream the match `k` lies before or after a paragraph
/// that is not annotated.
proof fn lemma_match_misses_paragraph(
    stream: Seq<TokenView>,
    matches: Seq<AnnotationMatchView>,
    k: int,
    a: int,
    b: int,
)
    requires
        well_nested(stream),
        same_paragraphs(scanned(stream), matches),
        matches_fit(stream.len() as int, matches),
        paragraph(stream, a, b),
        !annotation_at(stream, a),
        0 <= k < matches.len(),
    ensures
        span_end(matches[k], stream.len() as int) < a || b < matches[k].paragraph_start_index,
{
    let n = stream.len() as int;
    let found = scanned(stream);
    lemma_scanned_prefix_records(stream, n);
    assert(record_stands(stream, n, found, k));
    let p = found[k].paragraph_start_index;
    assert(matches[k].paragraph_start_index == p);
    if a < p <= b {
        assert(stream[a] is ParagraphStart && stream[p] is ParagraphStart);
        let e = choose|e: int| a < e < p && (#[trigger] stream[e]) is ParagraphEnd;
        assert(!(stream[e] is ParagraphEnd));
    } else if p < a && a <= span_end(matches[k], n) {
        assert(stream[p] is ParagraphStart && stream[a] is ParagraphStart);
        let e = choose|e: int| p < e < a && (#[trigger] stream[e]) is ParagraphEnd;
        assert(e != p + 1);
        if k + 1 < found.len() {
            assert(matches[k + 1].paragraph_start_index == found[k + 1].paragraph_start_index);
            assert(span_end(matches[k], n) < matches[k + 1].paragraph_start_index);
        }
        assert(e < search_limit(found, k, n));
        assert(closes_within(stream, p + 2, search_limit(found, k, n), found[k].paragraph_end_index));
        assert(!(stream[e] is ParagraphEnd) || found[k].paragraph_end_index is Some);
    }
}

/// How many matches lie before a paragraph that none of them touches,
/// counted from the match `k` on.
proof fn lemma_count_before(
    len: int,
    matches: Seq<AnnotationMatchView>,
    a: int,
    b: int,
    k: int,
) -> (c: int)
    requires
        matches_fit(len, matches),
        a <= b,
        0 <= k <= matches.len(),
        forall|j: int|
            0 <= j < matches.len() ==> span_end(#[trigger] matches[j], len) < a || b
                < matches[j].paragraph_start_index,
        forall|j: int| 0 <= j < k ==> span_end(#[trigger] matches[j], len) < a,
    ensures
        matches_before(len, matches, a, c),
        matches_before(len, matches, b, c),
    decreases matches.len() - k,
{
    if k < matches.len() && span_end(matches[k], len) < a {
        lemma_count_before(len, matches, a, b, k + 1)
    } else {
        if k < matches.len() {
            assert forall|j: int| k <= j < matches.len() implies b < (
            #[trigger] matches[j]).paragraph_start_index by {
                if k < j {
                    lemma_fit_in_order(len, matches, k, j);
                }
            }
        }
        k
    }
}

/// A run of tokens before which `c` matches lie, and after which the others
/// lie, stands in the rewritten stream as it stood, `c` places further, with
/// no wrapper among its tokens or around them.
pub proof fn lemma_run_kept(
    stream: Seq<TokenView>,
    matches: Seq<AnnotationMatchView>,
    a: int,
    b: int,
    c: int,
)
    requires
        matches_fit(stream.len() as int, matches),
        0 <= a <= b < stream.len(),
        matches_before(stream.len() as int, matches, a, c),
        matches_before(stream.len() as int, matches, b, c),
    ensures
        b + c < rewritten(stream, matches).len(),
        rewritten(stream, matches).subrange(a + c, b + c + 1) == stream.subrange(a, b + 1),
        forall|j: int|
            0 <= j < c ==> span_end(#[trigger] matches[j], stream.len() as int) + j + 1 < a + c,
        forall|j: int|
            c <= j < matches.len() ==> b + c < (#[trigger] matches[j]).paragraph_start_index + j,
{
    let n = stream.len() as int;
    let out = rewritten(stream, matches);
    lemma_token_kept(stream, matches, b, c);
    assert forall|t: int| a <= t <= b implies out[t + c] == stream[t] by {
        assert(matches_before(n, matches, t, c));
        lemma_token_kept(stream, matches, t, c);
    }
    assert(out.subrange(a + c, b + c + 1) =~= stream.subrange(a, b + 1));
}

/// A paragraph without annotation passes through, also beside annotated
/// ones: in a well-nested stream its tokens stand in the rewritten stream
/// one after the other as they stood, `c` places further, where `c` matches
/// lie before the paragraph. No wrapper stands among them or around them:
/// the wrappers of those `c` matches have closed before the paragraph, and
/// the wrappers of the others open after it.
pub proof fn lemma_unannotated_paragraph_kept(
    stream: Seq<TokenView>,
    matches: Seq<AnnotationMatchView>,
    a: int,
    b: int,
) -> (c: int)
    requires
        well_nested(stream),
        same_paragraphs(scanned(stream), matches),
        paragraph(stream, a, b),
        !annotation_at(stream, a),
    ensures
        matches_fit(stream.len() as int, matches),
        matches_before(stream.len() as int, matches, a, c),
        matches_before(stream.len() as int, matches, b, c),
        b + c < rewritten(stream, matches).len(),
        rewritten(stream, matches).subrange(a + c, b + c + 1) == stream.subrange(a, b + 1),
        forall|j: int|
            0 <= j < c ==> span_end(#[trigger] matches[j], stream.len() as int) + j + 1 < a + c,
        forall|j: int|
            c <= j < matches.len() ==> b + c < (#[trigger] matches[j]).paragraph_start_index + j,
{
    let n = stream.len() as int;
    lemma_well_nested_fit(stream, matches);
    assert forall|j: int| 0 <= j < matches.len() implies span_end(#[trigger] matches[j], n) < a
        || b < matches[j].paragraph_start_index by {
        lemma_match_misses_paragraph(stream, matches, j, a, b);
    }
    let c = lemma_count_before(n, matches, a, b, 0);
    lemma_run_kept(stream, matches, a, b, c);
    c
}

} // verus!
