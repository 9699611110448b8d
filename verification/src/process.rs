//! The whole transformation of one document.

use crate::keywords::is_word;
use crate::markdown::{parse_markdown, parsed_markdown, render_markdown, rendered_markdown};
use crate::matches::{resolve_annotations, resolved_by, AnnotationMatchView};
use crate::utilities::{
    lemma_utilities_resolve, utility_class_names, utility_style, utility_style_declarations,
};
use crate::rewriter::{rewrite, rewritten};
use crate::scanner::{scan, scanned, Annotation, AnnotationView};
use crate::token::{Token, TokenView};
use vstd::prelude::*;

verus! {

/// Why a document could not be transformed.
#[derive(Debug, Clone, Copy, PartialEq, Eq)]
pub enum TransformError {
    /// The rewritten tokens could not be written as markdown.
    RoundTripFailure,
}

/// A transformed document.
#[derive(Debug, PartialEq, Eq)]
pub struct Processed {
    /// The markdown text of the document.
    pub content: String,
    /// Whether an annotated paragraph never ended, so that its wrapper holds
    /// the rest of the document. The caller may warn of it.
    pub malformed_trailing_structure: bool,
}

/// Is a record among `found` whose paragraph never ended?
pub open spec fn has_open_paragraph(found: Seq<AnnotationView>) -> bool {
    exists|k: int| 0 <= k < found.len() && (#[trigger] found[k]).paragraph_end_index is None
}

/// Is `out` the stream with each annotated paragraph in its wrapper, the
/// wrappers carrying what the resolver made of the payloads?
pub open spec fn styled_by<'a, F: Fn(&str) -> Option<String>>(
    resolver: F,
    stream: Seq<TokenView<'a>>,
    out: Seq<TokenView<'a>>,
) -> bool {
    exists|matches: Seq<AnnotationMatchView>| #[trigger]
        resolved_by(resolver, scanned(stream), matches) && out == rewritten(stream, matches)
}

/// Is a record among `found` whose paragraph never ended?
pub fn any_open_paragraph(found: &Vec<Annotation>) -> (open: bool)
    ensures
        open == has_open_paragraph(found.deep_view()),
{
    let ghost records = found.deep_view();
    let mut k: usize = 0;
    while k < found.len()
        invariant
            k <= found.len(),
            records == found.deep_view(),
            forall|j: int| 0 <= j < k ==> (#[trigger] records[j]).paragraph_end_index is Some,
        decreases found.len() - k,
    {
        assert(records[k as int] == found[k as int]@);
        if found[k].paragraph_end_index.is_none() {
            return true;
        }
        k += 1;
    }
    false
}

/// Scans the stream, resolves the payload of each annotation and wraps the
/// annotated paragraphs. The resolver has to take every word.
pub fn style_paragraphs<'a, F: Fn(&str) -> Option<String>>(
    stream: &Vec<Token<'a>>,
    resolver: &F,
) -> (out: Vec<Token<'a>>)
    requires
        forall|keyword: &str| is_word(keyword@) ==> call_requires(*resolver, (keyword,)),
    ensures
        styled_by(*resolver, stream.deep_view(), out.deep_view()),
{
    let found = scan(stream);
    let matches = resolve_annotations(&found, resolver);
    rewrite(stream, &matches)
}

/// Transforms the markdown text of one document with the resolver that the
/// caller hands in: the paragraphs that begin with an annotation
/// `{:.keywords}` are wrapped, the annotation is taken out, and the tokens
/// are written as markdown again. The resolver is asked about each keyword
/// of each annotation, once and in order; it has to take every word.
///
/// The document is returned if and only if the rewritten tokens can be
/// written.
pub fn process_document<F: Fn(&str) -> Option<String>>(content: &str, resolver: &F) -> (result:
    Result<Processed, TransformError>)
    requires
        forall|keyword: &str| is_word(keyword@) ==> call_requires(*resolver, (keyword,)),
    ensures
        exists|out: Seq<TokenView>| #[trigger]
            styled_by(*resolver, parsed_markdown(content@), out) && match result {
                Ok(document) => rendered_markdown(out) == Some(document.content@),
                Err(error) => error == TransformError::RoundTripFailure && rendered_markdown(out)
                    is None,
            },
        result matches Ok(document) ==> document.malformed_trailing_structure
            == has_open_paragraph(scanned(parsed_markdown(content@))),
{
    let tokens = parse_markdown(content);
    let found = scan(&tokens);
    let malformed_trailing_structure = any_open_paragraph(&found);
    let matches = resolve_annotations(&found, resolver);
    let out = rewrite(&tokens, &matches);
    let ghost written = out.deep_view();
    assert(styled_by(*resolver, tokens.deep_view(), written));
    match render_markdown(out) {
        Ok(content) => Ok(Processed { content, malformed_trailing_structure }),
        Err(_) => Err(TransformError::RoundTripFailure),
    }
}

/// The matches that records become with the utilities of `tailwind_css`:
/// the same paragraphs, with the class names and the style declarations of
/// each record's payload.
pub open spec fn utility_matches(found: Seq<AnnotationView>) -> Seq<AnnotationMatchView> {
    found.map_values(
        |record: AnnotationView|
            AnnotationMatchView {
                paragraph_start_index: record.paragraph_start_index,
                paragraph_end_index: record.paragraph_end_index,
                class_names: utility_class_names(record.payload),
                style_declarations: utility_style_declarations(record.payload),
            },
    )
}

/// The stream with each annotated paragraph in its wrapper, the wrappers
/// carrying what the utilities of `tailwind_css` make of the payloads.
pub open spec fn styled<'a>(stream: Seq<TokenView<'a>>) -> Seq<TokenView<'a>> {
    rewritten(stream, utility_matches(scanned(stream)))
}

/// The markdown text that a document becomes with the utilities of
/// `tailwind_css`, or `None` where the rewritten tokens cannot be written.
pub open spec fn processed(content: Seq<char>) -> Option<Seq<char>> {
    rendered_markdown(styled(parsed_markdown(content)))
}

/// With the utilities of `tailwind_css` as the resolver there is one styled
/// stream only.
pub proof fn lemma_styled_by_utilities(stream: Seq<TokenView>, out: Seq<TokenView>)
    requires
        styled_by(utility_style, stream, out),
    ensures
        out == styled(stream),
{
    let found = scanned(stream);
    let matches = choose|matches: Seq<AnnotationMatchView>| #[trigger]
        resolved_by(utility_style, found, matches) && out == rewritten(stream, matches);
    assert forall|k: int| 0 <= k < found.len() implies #[trigger] matches[k] == utility_matches(
        found,
    )[k] by {
        lemma_utilities_resolve(
            found[k].payload,
            matches[k].class_names,
            matches[k].style_declarations,
        );
    }
    assert(matches =~= utility_matches(found));
}

/// Transforms the markdown text of one document: the paragraphs that begin
/// with an annotation `{:.keywords}` are wrapped, the annotation is taken
/// out, and the tokens are written as markdown again. The keywords that are
/// utilities of `tailwind_css` become the wrapper's style, the others its
/// classes.
///
/// The document is returned if and only if the rewritten tokens can be
/// written.
pub fn process_tailwindcss(content: &str) -> (result: Result<Processed, TransformError>)
    ensures
        match result {
            Ok(document) => {
                &&& processed(content@) == Some(document.content@)
                &&& document.malformed_trailing_structure == has_open_paragraph(
                    scanned(parsed_markdown(content@)),
                )
            },
            Err(error) => error == TransformError::RoundTripFailure && processed(content@) is None,
        },
{
    let result = process_document(content, &utility_style);
    proof {
        let out = choose|out: Seq<TokenView>| #[trigger]
            styled_by(utility_style, parsed_markdown(content@), out) && match result {
                Ok(document) => rendered_markdown(out) == Some(document.content@),
                Err(error) => error == TransformError::RoundTripFailure && rendered_markdown(out)
                    is None,
            };
        lemma_styled_by_utilities(parsed_markdown(content@), out);
    }
    result
}

} // verus!
