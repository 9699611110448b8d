//! Annotated paragraphs with their keywords resolved.

use crate::keywords::is_word;
use crate::resolver::{resolve, resolves_to};
use crate::scanner::{index_view, Annotation, AnnotationView};
use vstd::prelude::*;

verus! {

/// An annotated paragraph with the classes and the style that its wrapper
/// gets.
#[derive(Debug, PartialEq, Eq)]
pub struct AnnotationMatch {
    /// Where the paragraph starts; the annotation is the token after it.
    pub paragraph_start_index: usize,
    /// Where the paragraph ends. Without an end the paragraph runs to the end
    /// of the stream.
    pub paragraph_end_index: Option<usize>,
    /// The class names, with a space between each two.
    pub class_names: String,
    /// The style declarations, one after the other.
    pub style_declarations: String,
}

/// An `AnnotationMatch` over mathematical integers and sequences.
pub struct AnnotationMatchView {
    pub paragraph_start_index: int,
    pub paragraph_end_index: Option<int>,
    pub class_names: Seq<char>,
    pub style_declarations: Seq<char>,
}

impl View for AnnotationMatch {
    type V = AnnotationMatchView;

    open spec fn view(&self) -> AnnotationMatchView {
        AnnotationMatchView {
            paragraph_start_index: self.paragraph_start_index as int,
            paragraph_end_index: index_view(self.paragraph_end_index),
            class_names: self.class_names@,
            style_declarations: self.style_declarations@,
        }
    }
}

impl DeepView for AnnotationMatch {
    type V = AnnotationMatchView;

    open spec fn deep_view(&self) -> AnnotationMatchView {
        self@
    }
}

/// Do the matches stand at the paragraphs of the records: one match for
/// each record, in order, with the same paragraph start and end?
pub open spec fn same_paragraphs(
    found: Seq<AnnotationView>,
    matches: Seq<AnnotationMatchView>,
) -> bool {
    &&& matches.len() == found.len()
    &&& forall|k: int|
        0 <= k < found.len() ==> (#[trigger] matches[k]).paragraph_start_index
            == found[k].paragraph_start_index && matches[k].paragraph_end_index
            == found[k].paragraph_end_index
}

/// Are these the matches that the records become by the resolver: do they
/// stand at the paragraphs of the records, each with the class names and the
/// style declarations of its record's payload?
pub open spec fn resolved_by<F: Fn(&str) -> Option<String>>(
    resolver: F,
    found: Seq<AnnotationView>,
    matches: Seq<AnnotationMatchView>,
) -> bool {
    &&& same_paragraphs(found, matches)
    &&& forall|k: int|
        0 <= k < found.len() ==> resolves_to(
            resolver,
            found[k].payload,
            (#[trigger] matches[k]).class_names,
            matches[k].style_declarations,
        )
}

/// Resolves the payload of each record, in order. The resolver has to take
/// every word.
pub fn resolve_annotations<F: Fn(&str) -> Option<String>>(
    found: &Vec<Annotation>,
    resolver: &F,
) -> (matches: Vec<AnnotationMatch>)
    requires
        forall|keyword: &str| is_word(keyword@) ==> call_requires(*resolver, (keyword,)),
    ensures
        resolved_by(*resolver, found.deep_view(), matches.deep_view()),
{
    let ghost records = found.deep_view();
    let mut matches: Vec<AnnotationMatch> = Vec::new();
    let mut k: usize = 0;
    while k < found.len()
        invariant
            k <= found.len(),
            records == found.deep_view(),
            forall|keyword: &str| is_word(keyword@) ==> call_requires(*resolver, (keyword,)),
            resolved_by(*resolver, records.take(k as int), matches.deep_view()),
        decreases found.len() - k,
    {
        let ghost before = matches.deep_view();
        let (class_names, style_declarations) = resolve(found[k].payload.as_str(), resolver);
        matches.push(
            AnnotationMatch {
                paragraph_start_index: found[k].paragraph_start_index,
                paragraph_end_index: found[k].paragraph_end_index,
                class_names,
                style_declarations,
            },
        );
        proof {
            assert(records[k as int] == found[k as int]@);
            let after = matches.deep_view();
            assert(after =~= before.push(matches[k as int]@));
            assert forall|j: int| 0 <= j < k + 1 implies (#[trigger] after[j]).paragraph_start_index
                == records.take(k + 1)[j].paragraph_start_index && after[j].paragraph_end_index
                == records.take(k + 1)[j].paragraph_end_index && resolves_to(
                *resolver,
                records.take(k + 1)[j].payload,
                after[j].class_names,
                after[j].style_declarations,
            ) by {
                if j < k {
                    assert(after[j] == before[j]);
                    assert(records.take(k + 1)[j] == records.take(k as int)[j]);
                }
            }
        }
        k += 1;
    }
    assert(records.take(k as int) =~= records);
    matches
}

} // verus!
