//! Paragraph styling for markdown: a paragraph whose first text run is an
//! annotation `{:.keywords}` is wrapped in a block container that carries the
//! classes and inline styles the keywords stand for.
//!
//! A document goes through four steps. The markdown text is parsed into
//! tokens. The scanner records the annotated paragraphs. The resolver, a
//! function that the caller hands in, tells for each keyword of an annotation
//! whether it is a utility with style declarations or a class name. The
//! rewriter wraps each annotated paragraph and takes its annotation out, and
//! the tokens are written as markdown again.

pub mod annotation;
pub mod instruction;
pub mod keywords;
pub mod laws;
pub mod markdown;
pub mod matches;
pub mod places;
pub mod preprocessor;
pub mod process;
pub mod resolver;
pub mod rewriter;
pub mod scanner;
pub mod text;
pub mod token;
pub mod utilities;

pub use crate::preprocessor::Tailwindcss;
pub use crate::process::{process_document, process_tailwindcss, Processed, TransformError};
