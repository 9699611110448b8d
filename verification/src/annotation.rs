//! The annotation syntax: a text run `{:.` payload `}`.

use crate::text::chars_of;
use vstd::prelude::*;

verus! {

/// Is `text` an annotation: does it begin with `{:.` and end with `}`, the
/// two not sharing a character?
pub open spec fn is_annotation(text: Seq<char>) -> bool {
    &&& text.len() >= 4
    &&& text[0] == '{'
    &&& text[1] == ':'
    &&& text[2] == '.'
    &&& text[text.len() - 1] == '}'
}

/// The predicate that a character is not a dot.
pub open spec fn not_dot() -> spec_fn(char) -> bool {
    |c: char| c != '.'
}

/// What stands between the delimiters of an annotation, its dots taken out.
pub open spec fn payload_of(text: Seq<char>) -> Seq<char> {
    text.subrange(3, text.len() - 1).filter(not_dot())
}

/// The payload of `text` where `text` is an annotation, and `None` where it
/// is not.
pub fn annotation_payload(text: &str) -> (payload: Option<String>)
    ensures
        payload is Some <==> is_annotation(text@),
        payload matches Some(p) ==> p@ == payload_of(text@),
{
    let chars = chars_of(text);
    let n = chars.len();
    if n < 4 || chars[0] != '{' || chars[1] != ':' || chars[2] != '.' || chars[n - 1] != '}' {
        return None;
    }
    let mut payload = String::new();
    let mut i: usize = 3;
    proof {
        reveal(Seq::filter);
        assert(chars@.subrange(3, 3) =~= Seq::<char>::empty());
    }
    while i < n - 1
        invariant
            3 <= i <= n - 1,
            n == chars.len(),
            payload@ == chars@.subrange(3, i as int).filter(not_dot()),
        decreases n - i,
    {
        let c = chars[i];
        proof {
            reveal(Seq::filter);
            let next = chars@.subrange(3, i + 1);
            assert(next.drop_last() =~= chars@.subrange(3, i as int));
            assert(next.last() == c);
        }
        if c != '.' {
            payload.push(c);
        }
        i += 1;
    }
    Some(payload)
}

} // verus!
