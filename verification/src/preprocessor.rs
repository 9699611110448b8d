//! The preprocessor as the host sees it.

use crate::text::chars_of;
use vstd::prelude::*;

verus! {

/// The preprocessor that styles annotated paragraphs.
#[derive(Debug, Clone, Copy, PartialEq, Eq)]
pub struct Tailwindcss;

impl Default for Tailwindcss {
    fn default() -> (preprocessor: Tailwindcss)
        ensures
            preprocessor == Tailwindcss,
    {
        Tailwindcss
    }
}

impl Tailwindcss {
    /// The preprocessor.
    pub fn new() -> (preprocessor: Tailwindcss)
        ensures
            preprocessor == Tailwindcss,
    {
        Tailwindcss
    }

    /// The name by which the host knows the preprocessor.
    pub fn name(&self) -> (name: &'static str)
        ensures
            name@ == "tailwindcss"@,
    {
        "tailwindcss"
    }

    /// Is `renderer` supported? Only `html` is.
    pub fn supports_renderer(&self, renderer: &str) -> (supported: bool)
        ensures
            supported == (renderer@ == "html"@),
    {
        let chars = chars_of(renderer);
        proof {
            reveal_strlit("html");
        }
        let supported = chars.len() == 4 && chars[0] == 'h' && chars[1] == 't' && chars[2] == 'm'
            && chars[3] == 'l';
        assert(supported ==> chars@ =~= "html"@);
        supported
    }
}

} // verus!
