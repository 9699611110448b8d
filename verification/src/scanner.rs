//! Finding the annotated paragraphs of a token stream.

use crate::annotation::{annotation_payload, is_annotation, payload_of};
use crate::token::{Token, TokenView};
use vstd::prelude::*;

verus! {

/// An annotated paragraph as the scanner found it.
#[derive(Debug, PartialEq, Eq)]
pub struct Annotation {
    /// Where the paragraph starts; the annotation is the token after it.
    pub paragraph_start_index: usize,
    /// Where the paragraph ends, if an end was found.
    pub paragraph_end_index: Option<usize>,
    /// The annotation's payload, without its dots.
    pub payload: String,
}

/// An `Annotation` over mathematical integers and sequences.
pub struct AnnotationView {
    pub paragraph_start_index: int,
    pub paragraph_end_index: Option<int>,
    pub payload: Seq<char>,
}

/// An optional index as an optional integer.
pub open spec fn index_view(index: Option<usize>) -> Option<int> {
    match index {
        Some(i) => Some(i as int),
        None => None,
    }
}

impl View for Annotation {
    type V = AnnotationView;

    open spec fn view(&self) -> AnnotationView {
        AnnotationView {
            paragraph_start_index: self.paragraph_start_index as int,
            paragraph_end_index: index_view(self.paragraph_end_index),
            payload: self.payload@,
        }
    }
}

impl DeepView for Annotation {
    type V = AnnotationView;

    open spec fn deep_view(&self) -> AnnotationView {
        self@
    }
}

/// The text of a text run, and the empty text for any other token.
pub open spec fn text_of(token: TokenView) -> Seq<char> {
    match token {
        TokenView::TextRun(text) => text,
        _ => Seq::empty(),
    }
}

/// Does an annotated paragraph start at `p`: is the token there a paragraph
/// start, and the next one a text run that is an annotation?
pub open spec fn annotation_at(stream: Seq<TokenView>, p: int) -> bool {
    &&& 0 <= p
    &&& p + 1 < stream.len()
    &&& stream[p] is ParagraphStart
    &&& stream[p + 1] is TextRun
    &&& is_annotation(text_of(stream[p + 1]))
}

/// The annotation that is recorded when the text run after the paragraph
/// start at `p` is read.
pub open spec fn opened_at(stream: Seq<TokenView>, p: int) -> AnnotationView {
    AnnotationView {
        paragraph_start_index: p,
        paragraph_end_index: None,
        payload: payload_of(text_of(stream[p + 1])),
    }
}

/// What the scanner has recorded when it has read the first `n` tokens.
///
/// A text run that is an annotation, right after a paragraph start, opens a
/// record. A paragraph end closes the latest record if that is still open.
pub open spec fn scanned_prefix(stream: Seq<TokenView>, n: int) -> Seq<AnnotationView>
    decreases n,
{
    if n <= 0 {
        Seq::empty()
    } else {
        let found = scanned_prefix(stream, n - 1);
        let i = n - 1;
        if annotation_at(stream, i - 1) {
            found.push(opened_at(stream, i - 1))
        } else if stream[i] is ParagraphEnd && found.len() > 0
            && found.last().paragraph_end_index is None {
            found.update(
                found.len() - 1,
                AnnotationView { paragraph_end_index: Some(i), ..found.last() },
            )
        } else {
            found
        }
    }
}

/// The annotations of a stream.
pub open spec fn scanned(stream: Seq<TokenView>) -> Seq<AnnotationView> {
    scanned_prefix(stream, stream.len() as int)
}

/// Is `end` the first paragraph end among the tokens `lo..hi`, or `None`
/// where there is none among them?
pub open spec fn closes_within(stream: Seq<TokenView>, lo: int, hi: int, end: Option<int>) -> bool {
    match end {
        Some(e) => {
            &&& lo <= e < hi
            &&& stream[e] is ParagraphEnd
            &&& forall|j: int| lo <= j < e ==> !(#[trigger] stream[j] is ParagraphEnd)
        },
        None => forall|j: int| lo <= j < hi ==> !(#[trigger] stream[j] is ParagraphEnd),
    }
}

/// Where the search for the end of record `k` stops: at the start of the next
/// record, or after the first `n` tokens for the last record.
pub open spec fn search_limit(found: Seq<AnnotationView>, k: int, n: int) -> int {
    if k + 1 < found.len() {
        found[k + 1].paragraph_start_index
    } else {
        n
    }
}

/// Does the record `k` stand at an annotated paragraph among the first `n`
/// tokens, hold its payload, and end at the first paragraph end before the
/// next record, if there is one?
pub open spec fn record_stands(
    stream: Seq<TokenView>,
    n: int,
    found: Seq<AnnotationView>,
    k: int,
) -> bool {
    let r = found[k];
    &&& annotation_at(stream, r.paragraph_start_index)
    &&& r.paragraph_start_index + 1 < n
    &&& r.payload == payload_of(text_of(stream[r.paragraph_start_index + 1]))
    &&& closes_within(
        stream,
        r.paragraph_start_index + 2,
        search_limit(found, k, n),
        r.paragraph_end_index,
    )
}

/// Does each record stand?
pub open spec fn records_stand(stream: Seq<TokenView>, n: int, found: Seq<AnnotationView>) -> bool {
    forall|k: int| 0 <= k < found.len() ==> #[trigger] record_stands(stream, n, found, k)
}

/// Do the records come in the order of their paragraphs, no two at the same
/// paragraph?
pub open spec fn records_ascend(found: Seq<AnnotationView>) -> bool {
    forall|j: int, k: int|
        0 <= j < k < found.len() ==> (#[trigger] found[j]).paragraph_start_index < (
        #[trigger] found[k]).paragraph_start_index
}

/// Is a record among `found` that stands at `p`?
pub open spec fn recorded_at(found: Seq<AnnotationView>, p: int) -> bool {
    exists|k: int| 0 <= k < found.len() && (#[trigger] found[k]).paragraph_start_index == p
}

/// Is no annotated paragraph among the first `n` tokens left out?
pub open spec fn records_complete(stream: Seq<TokenView>, n: int, found: Seq<AnnotationView>) -> bool {
    forall|p: int| #[trigger] annotation_at(stream, p) && p + 1 < n ==> recorded_at(found, p)
}

/// Are the records `found` those of the first `n` tokens of `stream`?
pub open spec fn records_first(stream: Seq<TokenView>, n: int, found: Seq<AnnotationView>) -> bool {
    &&& records_stand(stream, n, found)
    &&& records_ascend(found)
    &&& records_complete(stream, n, found)
}

/// Are the records `found` those of the whole of `stream`?
pub open spec fn records_all(stream: Seq<TokenView>, found: Seq<AnnotationView>) -> bool {
    records_first(stream, stream.len() as int, found)
}

/// A record that was among the records before is among them after a step
/// that keeps the paragraph starts.
proof fn lemma_still_recorded(before: Seq<AnnotationView>, found: Seq<AnnotationView>, p: int)
    requires
        recorded_at(before, p),
        before.len() <= found.len(),
        forall|k: int|
            0 <= k < before.len() ==> (#[trigger] found[k]).paragraph_start_index
                == before[k].paragraph_start_index,
    ensures
        recorded_at(found, p),
{
    let k = choose|k: int|
        0 <= k < before.len() && (#[trigger] before[k]).paragraph_start_index == p;
    assert(found[k].paragraph_start_index == p);
}

/// What the scanner has recorded after `n` tokens are the records of those
/// tokens.
pub proof fn lemma_scanned_prefix_records(stream: Seq<TokenView>, n: int)
    requires
        0 <= n <= stream.len(),
    ensures
        records_first(stream, n, scanned_prefix(stream, n)),
    decreases n,
{
    if n > 0 {
        lemma_scanned_prefix_records(stream, n - 1);
        let before = scanned_prefix(stream, n - 1);
        let found = scanned_prefix(stream, n);
        let i = n - 1;
        let opens = annotation_at(stream, i - 1);
        let closes = !opens && stream[i] is ParagraphEnd && before.len() > 0
            && before.last().paragraph_end_index is None;
        assert forall|k: int| 0 <= k < found.len() implies #[trigger] record_stands(
            stream,
            n,
            found,
            k,
        ) by {
            if k < before.len() {
                assert(record_stands(stream, n - 1, before, k));
                assert(found[k].paragraph_start_index == before[k].paragraph_start_index);
                if k + 1 < found.len() && !opens {
                    assert(found[k + 1].paragraph_start_index == before[k
                        + 1].paragraph_start_index);
                }
                if !(closes && k == before.len() - 1) {
                    assert(found[k] == before[k]);
                }
                if opens {
                    assert(search_limit(before, k, n - 1) >= search_limit(found, k, n));
                }
            }
        }
        assert forall|j: int, k: int| 0 <= j < k < found.len() implies (
        #[trigger] found[j]).paragraph_start_index < (#[trigger] found[k]).paragraph_start_index by {
            assert(found[j].paragraph_start_index == before[j].paragraph_start_index);
            if k < before.len() {
                assert(found[k].paragraph_start_index == before[k].paragraph_start_index);
            } else {
                assert(record_stands(stream, n - 1, before, j));
            }
        }
        assert forall|p: int| #[trigger] annotation_at(stream, p) && p + 1 < n implies recorded_at(
            found,
            p,
        ) by {
            if p + 1 < n - 1 {
                lemma_still_recorded(before, found, p);
            } else {
                assert(opens);
                assert(found[found.len() - 1].paragraph_start_index == p);
            }
        }
    }
}

/// Is the token a paragraph start?
fn is_paragraph_start<'a>(token: &Token<'a>) -> (b: bool)
    ensures
        b == (token@ is ParagraphStart),
{
    match token {
        Token::ParagraphStart => true,
        _ => false,
    }
}

/// Walks the stream once and records every annotated paragraph, in the order
/// in which the paragraphs start.
pub fn scan<'a>(stream: &Vec<Token<'a>>) -> (found: Vec<Annotation>)
    ensures
        found.deep_view() == scanned(stream.deep_view()),
        records_all(stream.deep_view(), found.deep_view()),
{
    let ghost tokens = stream.deep_view();
    let mut found: Vec<Annotation> = Vec::new();
    let mut i: usize = 0;
    assert(found.deep_view() =~= scanned_prefix(tokens, 0));
    while i < stream.len()
        invariant
            i <= stream.len(),
            tokens == stream.deep_view(),
            found.deep_view() == scanned_prefix(tokens, i as int),
        decreases stream.len() - i,
    {
        let ghost before = found.deep_view();
        assert(tokens[i as int] == stream[i as int]@);
        match &stream[i] {
            Token::TextRun(text) => {
                if i > 0 && is_paragraph_start(&stream[i - 1]) {
                    assert(tokens[i - 1] == stream[i - 1]@);
                    match annotation_payload(text.as_str()) {
                        Some(payload) => {
                            found.push(
                                Annotation {
                                    paragraph_start_index: i - 1,
                                    paragraph_end_index: None,
                                    payload,
                                },
                            );
                            assert(found.deep_view() =~= before.push(opened_at(tokens, i - 1)));
                        },
                        None => {},
                    }
                }
            },
            Token::ParagraphEnd => {
                let n = found.len();
                if n > 0 && found[n - 1].paragraph_end_index.is_none() {
                    assert(before[n - 1] == found[n - 1]@);
                    let open = found.pop().unwrap();
                    found.push(
                        Annotation {
                            paragraph_start_index: open.paragraph_start_index,
                            paragraph_end_index: Some(i),
                            payload: open.payload,
                        },
                    );
                    assert(found.deep_view() =~= before.update(
                        n - 1,
                        AnnotationView { paragraph_end_index: Some(i as int), ..before.last() },
                    ));
                }
            },
            _ => {},
        }
        i += 1;
    }
    proof {
        lemma_scanned_prefix_records(tokens, tokens.len() as int);
    }
    found
}

} // verus!
