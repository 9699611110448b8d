//! What holds of scanning and rewriting together.

use crate::annotation::is_annotation;
use crate::markdown::parsed_markdown;
use crate::matches::{resolved_by, same_paragraphs, AnnotationMatchView};
use crate::process::styled_by;
use crate::rewriter::{
    lemma_rewritten_len, lemma_rewritten_without_matches, matches_fit, rewritten, rewritten_from,
    span_end, tokens_between, wrapped, wrapper_close, wrapper_open,
};
use crate::scanner::{
    annotation_at, closes_within, lemma_scanned_prefix_records, records_ascend, records_complete,
    record_stands, recorded_at, records_stand, scanned, text_of, AnnotationView,
};
use crate::token::TokenView;
use vstd::prelude::*;

verus! {

/// Are the paragraphs of the stream well nested: is there a paragraph end
/// between any two paragraph starts?
pub open spec fn well_nested(stream: Seq<TokenView>) -> bool {
    forall|p: int, q: int|
        0 <= p < q < stream.len() && (#[trigger] stream[p]) is ParagraphStart && (
        #[trigger] stream[q]) is ParagraphStart ==> exists|e: int|
            p < e < q && (#[trigger] stream[e]) is ParagraphEnd
}

/// Is the token a text run that is an annotation?
pub open spec fn is_annotation_run(token: TokenView) -> bool {
    token is TextRun && is_annotation(text_of(token))
}

/// Does no annotated paragraph start anywhere in the stream?
pub open spec fn free_of_annotations(stream: Seq<TokenView>) -> bool {
    forall|p: int| !#[trigger] annotation_at(stream, p)
}

/// Is no annotation followed at once by another annotation?
pub open spec fn annotations_single(stream: Seq<TokenView>) -> bool {
    forall|p: int|
        #[trigger] annotation_at(stream, p) ==> !(p + 2 < stream.len() && is_annotation_run(
            stream[p + 2],
        ))
}

/// In a well-nested stream a record spans tokens of the stream and, unless
/// it is the last, ends before the next record starts.
proof fn lemma_record_fits(stream: Seq<TokenView>, found: Seq<AnnotationView>, k: int)
    requires
        well_nested(stream),
        0 <= k < found.len(),
        record_stands(stream, stream.len() as int, found, k),
        k + 1 < found.len() ==> record_stands(stream, stream.len() as int, found, k + 1),
        k + 1 < found.len() ==> found[k].paragraph_start_index < found[k
            + 1].paragraph_start_index,
    ensures
        0 <= found[k].paragraph_start_index,
        found[k].paragraph_start_index + 1 < stream.len(),
        found[k].paragraph_end_index matches Some(end) ==> found[k].paragraph_start_index < end
            < stream.len(),
        k + 1 < found.len() ==> (found[k].paragraph_end_index matches Some(end) && end < found[k
            + 1].paragraph_start_index),
{
    if k + 1 < found.len() {
        let p = found[k].paragraph_start_index;
        let q = found[k + 1].paragraph_start_index;
        assert(closes_within(stream, p + 2, q, found[k].paragraph_end_index));
        if found[k].paragraph_end_index is None {
            assert(stream[p] is ParagraphStart && stream[q] is ParagraphStart);
            let e = choose|e: int| p < e < q && (#[trigger] stream[e]) is ParagraphEnd;
            assert(e != p + 1);
            assert(!(stream[e] is ParagraphEnd));
        }
    }
}

/// In a well-nested stream the matches fit: every match but the last has its
/// paragraph end, and no two overlap.
pub proof fn lemma_well_nested_fit(stream: Seq<TokenView>, matches: Seq<AnnotationMatchView>)
    requires
        well_nested(stream),
        same_paragraphs(scanned(stream), matches),
    ensures
        matches_fit(stream.len() as int, matches),
{
    let n = stream.len() as int;
    let found = scanned(stream);
    lemma_scanned_prefix_records(stream, n);
    assert forall|k: int| 0 <= k < matches.len() implies {
        let m = #[trigger] matches[k];
        0 <= m.paragraph_start_index < span_end(m, n) < n
    } by {
        assert(record_stands(stream, n, found, k));
        if k + 1 < found.len() {
            assert(record_stands(stream, n, found, k + 1));
        }
        lemma_record_fits(stream, found, k);
    }
    assert forall|k: int| 0 <= k < matches.len() - 1 implies span_end(#[trigger] matches[k], n)
        < matches[k + 1].paragraph_start_index by {
        assert(record_stands(stream, n, found, k));
        assert(record_stands(stream, n, found, k + 1));
        lemma_record_fits(stream, found, k);
        assert(matches[k + 1].paragraph_start_index == found[k + 1].paragraph_start_index);
    }
}

/// In a well-nested stream the rewritten stream has one token more for each
/// annotated paragraph.
pub proof fn lemma_styled_len(stream: Seq<TokenView>, matches: Seq<AnnotationMatchView>)
    requires
        well_nested(stream),
        same_paragraphs(scanned(stream), matches),
    ensures
        rewritten(stream, matches).len() == stream.len() + scanned(stream).len(),
{
    lemma_well_nested_fit(stream, matches);
    lemma_rewritten_len(stream, matches);
}

/// In a stream without annotated paragraphs the scanner records nothing.
pub proof fn lemma_nothing_scanned(stream: Seq<TokenView>)
    requires
        free_of_annotations(stream),
    ensures
        scanned(stream) == Seq::<AnnotationView>::empty(),
{
    lemma_scanned_prefix_records(stream, stream.len() as int);
    let found = scanned(stream);
    if found.len() > 0 {
        assert(record_stands(stream, stream.len() as int, found, 0));
    }
    assert(found =~= Seq::empty());
}

/// A stream without annotated paragraphs is left as it is, token for token.
pub proof fn lemma_unannotated_unchanged(stream: Seq<TokenView>, matches: Seq<AnnotationMatchView>)
    requires
        free_of_annotations(stream),
        same_paragraphs(scanned(stream), matches),
    ensures
        rewritten(stream, matches) == stream,
{
    lemma_nothing_scanned(stream);
    assert(matches =~= Seq::<AnnotationMatchView>::empty());
    lemma_rewritten_without_matches(stream);
}

/// The tokens of a document without annotated paragraphs go to the writer as
/// the parser read them, whatever the resolver: nothing is added and nothing
/// is taken out between the two.
pub proof fn lemma_unannotated_document<F: Fn(&str) -> Option<String>>(
    resolver: F,
    content: Seq<char>,
    out: Seq<TokenView>,
)
    requires
        free_of_annotations(parsed_markdown(content)),
        styled_by(resolver, parsed_markdown(content), out),
    ensures
        out == parsed_markdown(content),
{
    let stream = parsed_markdown(content);
    let matches = choose|matches: Seq<AnnotationMatchView>| #[trigger]
        resolved_by(resolver, scanned(stream), matches) && out == rewritten(
            stream,
            matches,
        );
    lemma_unannotated_unchanged(stream, matches);
}

/// Two streams without annotated paragraphs, one after the other, are
/// without annotated paragraphs, unless the first ends in a paragraph start
/// and the second begins with an annotation.
proof fn lemma_joined_free(a: Seq<TokenView>, b: Seq<TokenView>)
    requires
        free_of_annotations(a),
        free_of_annotations(b),
        !(a.len() > 0 && b.len() > 0 && a.last() is ParagraphStart && is_annotation_run(b[0])),
    ensures
        free_of_annotations(a + b),
{
    let joined = a + b;
    assert forall|p: int| !#[trigger] annotation_at(joined, p) by {
        if annotation_at(joined, p) {
            if p + 1 < a.len() {
                assert(joined[p] == a[p] && joined[p + 1] == a[p + 1]);
                assert(annotation_at(a, p));
            } else if p >= a.len() {
                assert(joined[p] == b[p - a.len()] && joined[p + 1] == b[p + 1 - a.len()]);
                assert(annotation_at(b, p - a.len()));
            } else {
                assert(joined[p] == a.last() && joined[p + 1] == b[0]);
            }
        }
    }
}

/// A stretch of the stream in which no annotated paragraph of the stream
/// lies is without annotated paragraphs.
proof fn lemma_between_free(stream: Seq<TokenView>, lo: int, hi: int)
    requires
        0 <= lo <= stream.len(),
        forall|p: int| lo <= p && p + 1 < hi ==> !#[trigger] annotation_at(stream, p),
    ensures
        free_of_annotations(tokens_between(stream, lo, hi)),
{
    let part = tokens_between(stream, lo, hi);
    assert forall|p: int| !#[trigger] annotation_at(part, p) by {
        if annotation_at(part, p) {
            assert(part[p] == stream[lo + p] && part[p + 1] == stream[lo + p + 1]);
            assert(annotation_at(stream, lo + p));
        }
    }
}

/// A matched paragraph in its wrapper is without annotated paragraphs, where
/// none of the stream lies in its content and its annotation is single.
proof fn lemma_wrapped_free(stream: Seq<TokenView>, found: AnnotationMatchView)
    requires
        0 <= found.paragraph_start_index < span_end(found, stream.len() as int) < stream.len(),
        stream[found.paragraph_start_index] is ParagraphStart,
        forall|p: int|
            found.paragraph_start_index + 2 <= p && p + 1 <= span_end(found, stream.len() as int)
                ==> !#[trigger] annotation_at(stream, p),
        !(found.paragraph_start_index + 2 < stream.len() && is_annotation_run(
            stream[found.paragraph_start_index + 2],
        )),
    ensures
        free_of_annotations(wrapped(stream, found)),
        wrapped(stream, found).len() > 0,
        wrapped(stream, found)[0] == wrapper_open(found),
        wrapped(stream, found).last() == wrapper_close(),
{
    let start = found.paragraph_start_index;
    let end = span_end(found, stream.len() as int);
    let w = wrapped(stream, found);
    let content = tokens_between(stream, start + 2, end + 1);
    assert(tokens_between(stream, start, start + 1) =~= seq![stream[start]]);
    assert(content.len() == end - start - 1);
    assert(w.len() == content.len() + 3);
    assert(w[0] == wrapper_open(found));
    assert(w[1] == stream[start]);
    assert(w[w.len() - 1] == wrapper_close());
    assert forall|p: int| !#[trigger] annotation_at(w, p) by {
        if annotation_at(w, p) {
            if p == 0 {
            } else if p + 1 == w.len() - 1 {
            } else if p == 1 {
                assert(w[2] == content[0]);
                assert(content[0] == stream[start + 2]);
            } else {
                assert(w[p] == content[p - 2] && w[p + 1] == content[p - 1]);
                assert(content[p - 2] == stream[start + p]);
                assert(content[p - 1] == stream[start + p + 1]);
                assert(annotation_at(stream, start + p));
            }
        }
    }
}

/// That each record stands at an annotated paragraph, as a fact that is
/// opened only where it is needed.
#[verifier::opaque]
spec fn standing(stream: Seq<TokenView>, found: Seq<AnnotationView>) -> bool {
    records_stand(stream, stream.len() as int, found)
}

/// An annotated paragraph that starts at or after `last_end` is the
/// paragraph of a record from `k` on, where the records before `k` start
/// before `last_end`.
proof fn lemma_record_from(
    stream: Seq<TokenView>,
    found: Seq<AnnotationView>,
    k: int,
    last_end: int,
    p: int,
) -> (j: int)
    requires
        records_ascend(found),
        records_complete(stream, stream.len() as int, found),
        0 <= k <= found.len(),
        k > 0 ==> found[k - 1].paragraph_start_index < last_end,
        last_end <= p,
        annotation_at(stream, p),
    ensures
        k <= j < found.len(),
        found[j].paragraph_start_index == p,
        found[k].paragraph_start_index <= p,
        j > k ==> found[k + 1].paragraph_start_index <= p,
{
    assert(recorded_at(found, p));
    let j = choose|j: int| 0 <= j < found.len() && (#[trigger] found[j]).paragraph_start_index == p;
    if j < k {
        assert(found[j].paragraph_start_index <= found[k - 1].paragraph_start_index);
    }
    if j > k {
        assert(found[k].paragraph_start_index < found[j].paragraph_start_index);
        assert(found[k + 1].paragraph_start_index <= found[j].paragraph_start_index);
    }
    j
}

/// The paragraph of the match `k` is annotated, and the match spans tokens
/// of the stream and ends before the next one starts.
proof fn lemma_record_at(
    stream: Seq<TokenView>,
    found: Seq<AnnotationView>,
    matches: Seq<AnnotationMatchView>,
    k: int,
)
    requires
        standing(stream, found),
        same_paragraphs(found, matches),
        matches_fit(stream.len() as int, matches),
        0 <= k < found.len(),
    ensures
        annotation_at(stream, found[k].paragraph_start_index),
        matches[k].paragraph_start_index == found[k].paragraph_start_index,
        0 <= found[k].paragraph_start_index < span_end(matches[k], stream.len() as int)
            < stream.len(),
        k + 1 < found.len() ==> span_end(matches[k], stream.len() as int) < found[k
            + 1].paragraph_start_index,
{
    reveal(standing);
    assert(record_stands(stream, stream.len() as int, found, k));
    if k + 1 < found.len() {
        assert(matches[k + 1].paragraph_start_index == found[k + 1].paragraph_start_index);
        assert(span_end(matches[k], stream.len() as int) < matches[k + 1].paragraph_start_index);
    }
}

/// No annotated paragraph is left in what is still to come from the match
/// `k` on.
proof fn lemma_rest_free(
    stream: Seq<TokenView>,
    found: Seq<AnnotationView>,
    matches: Seq<AnnotationMatchView>,
    k: int,
    last_end: int,
)
    requires
        standing(stream, found),
        records_ascend(found),
        records_complete(stream, stream.len() as int, found),
        same_paragraphs(found, matches),
        matches_fit(stream.len() as int, matches),
        annotations_single(stream),
        0 <= k <= found.len(),
        0 <= last_end <= stream.len(),
        k < found.len() ==> last_end <= found[k].paragraph_start_index,
        k > 0 ==> found[k - 1].paragraph_start_index < last_end,
    ensures
        free_of_annotations(rewritten_from(stream, matches, k, last_end)),
    decreases found.len() - k,
{
    let n = stream.len() as int;
    if k >= found.len() {
        assert forall|p: int| last_end <= p && p + 1 < n implies !#[trigger] annotation_at(
            stream,
            p,
        ) by {
            if annotation_at(stream, p) {
                lemma_record_from(stream, found, k, last_end, p);
            }
        }
        lemma_between_free(stream, last_end, n);
    } else {
        lemma_record_at(stream, found, matches, k);
        let m = matches[k];
        let start = m.paragraph_start_index;
        let end = span_end(m, n);
        let before = tokens_between(stream, last_end, start);
        let rest = rewritten_from(stream, matches, k + 1, end + 1);
        assert(free_of_annotations(before)) by {
            assert forall|p: int| last_end <= p && p + 1 < start implies !#[trigger] annotation_at(
                stream,
                p,
            ) by {
                if annotation_at(stream, p) {
                    lemma_record_from(stream, found, k, last_end, p);
                }
            }
            lemma_between_free(stream, last_end, start);
        }
        assert(free_of_annotations(wrapped(stream, m)) && wrapped(stream, m).len() > 0 && wrapped(
            stream,
            m,
        )[0] == wrapper_open(m) && wrapped(stream, m).last() == wrapper_close()) by {
            assert forall|p: int| start + 2 <= p && p + 1 <= end implies !#[trigger] annotation_at(
                stream,
                p,
            ) by {
                if annotation_at(stream, p) {
                    lemma_record_from(stream, found, k, last_end, p);
                }
            }
            lemma_wrapped_free(stream, m);
        }
        lemma_rest_free(stream, found, matches, k + 1, end + 1);
        assert(free_of_annotations(before + wrapped(stream, m))) by {
            lemma_joined_free(before, wrapped(stream, m));
        }
        assert((before + wrapped(stream, m)).last() == wrapper_close());
        assert(free_of_annotations(before + wrapped(stream, m) + rest)) by {
            lemma_joined_free(before + wrapped(stream, m), rest);
        }
    }
}

/// A second pass finds nothing: once the annotated paragraphs of a stream
/// are wrapped, no wrapper and no other token is taken for an annotated
/// paragraph, whatever the wrappers carry. This holds where the matches fit,
/// as they do in every well-nested stream, and the annotations are single.
pub proof fn lemma_second_pass_finds_nothing(
    stream: Seq<TokenView>,
    matches: Seq<AnnotationMatchView>,
)
    requires
        matches_fit(stream.len() as int, matches),
        annotations_single(stream),
        same_paragraphs(scanned(stream), matches),
    ensures
        free_of_annotations(rewritten(stream, matches)),
        scanned(rewritten(stream, matches)) == Seq::<AnnotationView>::empty(),
{
    let found = scanned(stream);
    assert(standing(stream, found) && records_ascend(found) && records_complete(
        stream,
        stream.len() as int,
        found,
    ) && (found.len() > 0 ==> 0 <= found[0].paragraph_start_index)) by {
        reveal(standing);
        lemma_scanned_prefix_records(stream, stream.len() as int);
        if found.len() > 0 {
            assert(record_stands(stream, stream.len() as int, found, 0));
        }
    }
    lemma_rest_free(stream, found, matches, 0, 0);
    lemma_nothing_scanned(rewritten(stream, matches));
}

/// A second pass changes nothing: the stream that a first pass made is left
/// as it is, where the matches of the first pass fit and the annotations are
/// single.
pub proof fn lemma_second_pass_changes_nothing(
    stream: Seq<TokenView>,
    matches: Seq<AnnotationMatchView>,
    again: Seq<AnnotationMatchView>,
)
    requires
        matches_fit(stream.len() as int, matches),
        annotations_single(stream),
        same_paragraphs(scanned(stream), matches),
        same_paragraphs(scanned(rewritten(stream, matches)), again),
    ensures
        rewritten(rewritten(stream, matches), again) == rewritten(stream, matches),
{
    lemma_second_pass_finds_nothing(stream, matches);
    lemma_unannotated_unchanged(rewritten(stream, matches), again);
}

/// The tokens of a wrapper are never taken for an annotated paragraph:
/// neither starts an annotated paragraph, and neither is read as an
/// annotation.
pub proof fn lemma_wrapper_not_annotated(stream: Seq<TokenView>, p: int, found: AnnotationMatchView)
    requires
        0 <= p < stream.len(),
        stream[p] == wrapper_open(found) || stream[p] == wrapper_close(),
    ensures
        !annotation_at(stream, p),
        !annotation_at(stream, p - 1),
{
}

} // verus!
