//! How the utility compiler of `tailwind_css` reads a keyword, as far as it
//! decides whether the compiler answers at all.
//!
//! The compiler reads a keyword as variants, each ended by a colon, a minus
//! sign, elements with a hyphen between each two, an arbitrary value in
//! square brackets, and an important mark. A group in round brackets may
//! follow, whose own elements are added to those before it. On the elements
//! that come out the compiler chooses the utility.

use crate::text::{chars_of, string_of};
use vstd::prelude::*;

verus! {

/// The sorts of characters that the compiler's grammar tells apart.
#[derive(Clone, Copy, Debug, PartialEq, Eq)]
pub enum CharClass {
    /// The letters `a` to `z` and `A` to `Z` and the digits.
    Alphanumeric,
    /// What an element may hold: any character but a space, a line feed, a
    /// carriage return, a hyphen and the four brackets.
    Element,
    /// What an arbitrary value may hold: any character but `]`.
    Arbitrary,
}

/// Is `c` of the class?
pub open spec fn in_class(class: CharClass, c: char) -> bool {
    let n = c as u32;
    match class {
        CharClass::Alphanumeric => (0x61 <= n <= 0x7A) || (0x41 <= n <= 0x5A) || (0x30 <= n
            <= 0x39),
        CharClass::Element => !(c == ' ' || c == '\n' || c == '\r' || c == '-' || c == '['
            || c == ']' || c == '(' || c == ')'),
        CharClass::Arbitrary => c != ']',
    }
}

/// Is `c` of the class?
pub fn belongs(class: CharClass, c: char) -> (b: bool)
    ensures
        b == in_class(class, c),
{
    let n: u32 = c as u32;
    match class {
        CharClass::Alphanumeric => (0x61 <= n && n <= 0x7A) || (0x41 <= n && n <= 0x5A) || (0x30
            <= n && n <= 0x39),
        CharClass::Element => !(c == ' ' || c == '\n' || c == '\r' || c == '-' || c == '['
            || c == ']' || c == '(' || c == ')'),
        CharClass::Arbitrary => c != ']',
    }
}

/// Where the run of characters of the class that begins at `i` ends, within
/// `text[..hi]`.
pub open spec fn run_end(text: Seq<char>, i: int, hi: int, class: CharClass) -> int
    decreases hi - i,
{
    if 0 <= i < hi <= text.len() && in_class(class, text[i]) {
        run_end(text, i + 1, hi, class)
    } else {
        i
    }
}

/// Does `text[..hi]` hold `c` at `i`?
pub open spec fn holds_at(text: Seq<char>, i: int, hi: int, c: char) -> bool {
    0 <= i < hi <= text.len() && text[i] == c
}

/// Where the names of a variant end that has one name already, up to `j`:
/// after each further hyphen and name.
pub open spec fn names_more(text: Seq<char>, j: int, hi: int) -> int
    decreases hi - j,
{
    let q = run_end(text, j + 1, hi, CharClass::Alphanumeric);
    if holds_at(text, j, hi, '-') && j + 1 < q <= hi {
        names_more(text, q, hi)
    } else {
        j
    }
}

/// Where the names of a variant end that begin at `a`: alphanumeric names
/// with a hyphen between each two, or nothing.
pub open spec fn names_end(text: Seq<char>, a: int, hi: int) -> int {
    let j = run_end(text, a, hi, CharClass::Alphanumeric);
    if j == a {
        a
    } else {
        names_more(text, j, hi)
    }
}

/// Does `not-` stand at `i`?
pub open spec fn negated_at(text: Seq<char>, i: int, hi: int) -> bool {
    &&& holds_at(text, i, hi, 'n')
    &&& holds_at(text, i + 1, hi, 'o')
    &&& holds_at(text, i + 2, hi, 't')
    &&& holds_at(text, i + 3, hi, '-')
}

/// Where the variant that begins at `i` ends, or `i` where none begins
/// there: `not-` or nothing, names, and one colon or two.
pub open spec fn variant_end(text: Seq<char>, i: int, hi: int) -> int {
    let a = if negated_at(text, i, hi) {
        i + 4
    } else {
        i
    };
    let b = names_end(text, a, hi);
    if holds_at(text, b, hi, ':') {
        if holds_at(text, b + 1, hi, ':') {
            b + 2
        } else {
            b + 1
        }
    } else {
        i
    }
}

/// Where the variants that begin at `i` end.
pub open spec fn variants_end(text: Seq<char>, i: int, hi: int) -> int
    decreases hi - i,
{
    let j = variant_end(text, i, hi);
    if i < j <= hi {
        variants_end(text, j, hi)
    } else {
        i
    }
}

/// Where the elements of the style that begins at `i` begin: after its
/// variants and its minus sign.
pub open spec fn elements_start(text: Seq<char>, i: int, hi: int) -> int {
    let v = variants_end(text, i, hi);
    if holds_at(text, v, hi, '-') {
        v + 1
    } else {
        v
    }
}

/// The elements after the one that ends at `p`: each after a hyphen.
pub open spec fn more_elements(text: Seq<char>, p: int, hi: int) -> Seq<Seq<char>>
    decreases hi - p,
{
    let q = run_end(text, p + 1, hi, CharClass::Element);
    if holds_at(text, p, hi, '-') && p + 1 < q <= hi {
        seq![text.subrange(p + 1, q)] + more_elements(text, q, hi)
    } else {
        Seq::empty()
    }
}

/// Where the elements end of which one ends at `p`.
pub open spec fn more_end(text: Seq<char>, p: int, hi: int) -> int
    decreases hi - p,
{
    let q = run_end(text, p + 1, hi, CharClass::Element);
    if holds_at(text, p, hi, '-') && p + 1 < q <= hi {
        more_end(text, q, hi)
    } else {
        p
    }
}

/// The elements of the style that begins at `i`.
pub open spec fn style_elements(text: Seq<char>, i: int, hi: int) -> Seq<Seq<char>> {
    let n = elements_start(text, i, hi);
    let h = run_end(text, n, hi, CharClass::Element);
    if n < h <= hi {
        seq![text.subrange(n, h)] + more_elements(text, h, hi)
    } else {
        Seq::empty()
    }
}

/// Where the elements of the style that begins at `i` end.
pub open spec fn elements_end(text: Seq<char>, i: int, hi: int) -> int {
    let n = elements_start(text, i, hi);
    let h = run_end(text, n, hi, CharClass::Element);
    if n < h <= hi {
        more_end(text, h, hi)
    } else {
        n
    }
}

/// Where the arbitrary value that begins at `e` ends, or `e` where none
/// begins there: a hyphen, `[`, one character or more, and `]`.
pub open spec fn arbitrary_end(text: Seq<char>, e: int, hi: int) -> int {
    let q = run_end(text, e + 2, hi, CharClass::Arbitrary);
    if holds_at(text, e, hi, '-') && holds_at(text, e + 1, hi, '[') && e + 2 < q < hi {
        q + 1
    } else {
        e
    }
}

/// Has the style that begins at `i` an arbitrary value?
pub open spec fn has_arbitrary(text: Seq<char>, i: int, hi: int) -> bool {
    arbitrary_end(text, elements_end(text, i, hi), hi) > elements_end(text, i, hi)
}

/// Where the style that begins at `i` ends: after its arbitrary value and
/// its important mark.
pub open spec fn style_end(text: Seq<char>, i: int, hi: int) -> int {
    let a = arbitrary_end(text, elements_end(text, i, hi), hi);
    if holds_at(text, a, hi, '!') {
        a + 1
    } else {
        a
    }
}

/// Where the round bracket closes that is open at `p` with `depth` more
/// inside it, or `hi` where it does not close. A backslash takes the
/// character after it along.
pub open spec fn close_of(text: Seq<char>, p: int, hi: int, depth: nat) -> int
    decreases hi - p,
{
    if !(0 <= p < hi <= text.len()) {
        hi
    } else if text[p] == '\\' {
        if p + 2 <= hi {
            close_of(text, p + 2, hi, depth)
        } else {
            hi
        }
    } else if text[p] == '(' {
        close_of(text, p + 1, hi, depth + 1)
    } else if text[p] == ')' {
        if depth == 0 {
            p
        } else {
            close_of(text, p + 1, hi, (depth - 1) as nat)
        }
    } else {
        close_of(text, p + 1, hi, depth)
    }
}

/// Where the group closes that follows the style that begins at `i`, or `hi`
/// where no group follows it.
pub open spec fn group_close(text: Seq<char>, i: int, hi: int) -> int {
    let s = style_end(text, i, hi);
    if holds_at(text, s, hi, '(') {
        close_of(text, s + 1, hi, 0)
    } else {
        hi
    }
}

/// The element that stands for the elements before it.
pub open spec fn self_reference() -> Seq<Seq<char>> {
    seq!["&"@]
}

/// The elements that the compiler chooses the utility on, read from `i` on:
/// those of the style there and, where a group follows it, those of the
/// style in the group, and so on inwards. Inside a group the lone element
/// `&` adds nothing.
pub open spec fn chain_elements(text: Seq<char>, i: int, hi: int, top: bool) -> Seq<Seq<char>>
    decreases hi - i,
{
    let read = style_elements(text, i, hi);
    let own = if !top && read == self_reference() {
        Seq::empty()
    } else {
        read
    };
    let s = style_end(text, i, hi);
    let m = group_close(text, i, hi);
    if 0 <= i <= s && s < m < hi {
        own + chain_elements(text, s + 1, m, false)
    } else {
        own
    }
}

/// How many groups lie inside each other from `i` on: the group that
/// follows the style there, the group that follows the style in it, and so
/// on inwards.
pub open spec fn chain_depth(text: Seq<char>, i: int, hi: int) -> nat
    decreases hi - i,
{
    let s = style_end(text, i, hi);
    let m = group_close(text, i, hi);
    if 0 <= i <= s && s < m < hi {
        1 + chain_depth(text, s + 1, m)
    } else {
        0
    }
}

/// How many groups of a keyword lie inside each other. The compiler's parser
/// calls itself once for each.
pub open spec fn compiled_depth(keyword: Seq<char>) -> nat {
    chain_depth(keyword, 0, keyword.len() as int)
}

/// The elements that the compiler chooses the utility of a keyword on.
pub open spec fn compiled_elements(keyword: Seq<char>) -> Seq<Seq<char>> {
    chain_elements(keyword, 0, keyword.len() as int, true)
}

/// Has the keyword an arbitrary value for the compiler? Only one before the
/// first group counts.
pub open spec fn compiled_arbitrary(keyword: Seq<char>) -> bool {
    has_arbitrary(keyword, 0, keyword.len() as int)
}

/// Where the run of characters of the class that begins at `i` ends.
fn scan(chars: &Vec<char>, i: usize, hi: usize, class: CharClass) -> (j: usize)
    requires
        hi <= chars.len(),
    ensures
        j == run_end(chars@, i as int, hi as int, class),
        i <= j,
        i <= hi ==> j <= hi,
{
    let mut j = i;
    while j < hi && belongs(class, chars[j])
        invariant
            i <= j,
            i <= hi ==> j <= hi,
            hi <= chars.len(),
            run_end(chars@, j as int, hi as int, class) == run_end(
                chars@,
                i as int,
                hi as int,
                class,
            ),
        decreases hi - j,
    {
        j += 1;
    }
    j
}

/// Does `chars[..hi]` hold `c` at `i`?
fn at(chars: &Vec<char>, i: usize, hi: usize, c: char) -> (b: bool)
    requires
        hi <= chars.len(),
    ensures
        b == holds_at(chars@, i as int, hi as int, c),
{
    i < hi && chars[i] == c
}

/// Where the variant that begins at `i` ends, or `i`.
fn read_variant(chars: &Vec<char>, i: usize, hi: usize) -> (j: usize)
    requires
        i <= hi <= chars.len(),
    ensures
        j == variant_end(chars@, i as int, hi as int),
        i <= j <= hi,
{
    let negated = hi - i >= 4 && at(chars, i, hi, 'n') && at(chars, i + 1, hi, 'o') && at(
        chars,
        i + 2,
        hi,
        't',
    ) && at(chars, i + 3, hi, '-');
    let a = if negated {
        i + 4
    } else {
        i
    };
    let first = scan(chars, a, hi, CharClass::Alphanumeric);
    let mut b = first;
    if first > a {
        loop
            invariant
                a <= b <= hi <= chars.len(),
                names_more(chars@, b as int, hi as int) == names_more(
                    chars@,
                    first as int,
                    hi as int,
                ),
            ensures
                a <= b <= hi <= chars.len(),
                b == names_more(chars@, first as int, hi as int),
            decreases hi - b,
        {
            if !at(chars, b, hi, '-') {
                break ;
            }
            let q = scan(chars, b + 1, hi, CharClass::Alphanumeric);
            if q > b + 1 {
                b = q;
            } else {
                break ;
            }
        }
    }
    assert(b == names_end(chars@, a as int, hi as int));
    if at(chars, b, hi, ':') {
        if at(chars, b + 1, hi, ':') {
            b + 2
        } else {
            b + 1
        }
    } else {
        i
    }
}

/// What the compiler reads of one style.
pub struct Style {
    /// The elements.
    pub elements: Vec<String>,
    /// Whether an arbitrary value follows them.
    pub arbitrary: bool,
    /// Where the style ends.
    pub end: usize,
}

/// Reads the style that begins at `i`.
fn read_style(chars: &Vec<char>, i: usize, hi: usize) -> (style: Style)
    requires
        i <= hi <= chars.len(),
    ensures
        style.elements.deep_view() == style_elements(chars@, i as int, hi as int),
        style.arbitrary == has_arbitrary(chars@, i as int, hi as int),
        style.end == style_end(chars@, i as int, hi as int),
        i <= style.end <= hi,
{
    let ghost text = chars@;
    let mut v = i;
    loop
        invariant
            i <= v <= hi <= chars.len(),
            variants_end(chars@, v as int, hi as int) == variants_end(chars@, i as int, hi as int),
        ensures
            v == variants_end(chars@, i as int, hi as int),
            i <= v <= hi <= chars.len(),
        decreases hi - v,
    {
        let j = read_variant(chars, v, hi);
        if j > v {
            v = j;
        } else {
            break ;
        }
    }
    let n = if at(chars, v, hi, '-') {
        v + 1
    } else {
        v
    };
    assert(n == elements_start(text, i as int, hi as int));
    let mut elements: Vec<String> = Vec::new();
    let h = scan(chars, n, hi, CharClass::Element);
    let mut e = n;
    if h > n {
        elements.push(string_of(chars, n, h));
        e = h;
        let ghost first = elements.deep_view();
        assert(first =~= seq![text.subrange(n as int, h as int)]);
        loop
            invariant
                n < h <= e <= hi <= chars.len(),
                text == chars@,
                elements.deep_view() + more_elements(text, e as int, hi as int) == first
                    + more_elements(text, h as int, hi as int),
                more_end(text, e as int, hi as int) == more_end(text, h as int, hi as int),
            ensures
                n < h <= e <= hi <= chars.len(),
                elements.deep_view() + more_elements(text, e as int, hi as int) == first
                    + more_elements(text, h as int, hi as int),
                more_elements(text, e as int, hi as int) == Seq::<Seq<char>>::empty(),
                e == more_end(text, h as int, hi as int),
            decreases hi - e,
        {
            if !at(chars, e, hi, '-') {
                break ;
            }
            let q = scan(chars, e + 1, hi, CharClass::Element);
            if q > e + 1 {
                let ghost before = elements.deep_view();
                elements.push(string_of(chars, e + 1, q));
                assert(elements.deep_view() =~= before + seq![text.subrange(e + 1, q as int)]);
                assert(elements.deep_view() + more_elements(text, q as int, hi as int) =~= before
                    + more_elements(text, e as int, hi as int));
                e = q;
            } else {
                break ;
            }
        }
        assert(elements.deep_view() =~= first + more_elements(text, h as int, hi as int));
    } else {
        assert(elements.deep_view() =~= Seq::<Seq<char>>::empty());
    }
    assert(e == elements_end(text, i as int, hi as int));
    let mut a = e;
    if at(chars, e, hi, '-') && at(chars, e + 1, hi, '[') {
        let q = scan(chars, e + 2, hi, CharClass::Arbitrary);
        if q > e + 2 && q < hi {
            a = q + 1;
        }
    }
    assert(a == arbitrary_end(text, e as int, hi as int));
    let end = if at(chars, a, hi, '!') {
        a + 1
    } else {
        a
    };
    Style { elements, arbitrary: a > e, end }
}

/// Where the round bracket closes that is open at `p`, or `hi`.
fn find_close(chars: &Vec<char>, p: usize, hi: usize) -> (m: usize)
    requires
        p <= hi <= chars.len(),
    ensures
        m == close_of(chars@, p as int, hi as int, 0),
        p <= m <= hi,
{
    let mut q = p;
    let mut depth: usize = 0;
    while q < hi
        invariant
            p <= q <= hi <= chars.len(),
            depth <= q - p,
            close_of(chars@, q as int, hi as int, depth as nat) == close_of(
                chars@,
                p as int,
                hi as int,
                0,
            ),
        decreases hi - q,
    {
        let c = chars[q];
        if c == '\\' {
            if hi - q >= 2 {
                q += 2;
            } else {
                q = hi;
            }
        } else if c == '(' {
            depth += 1;
            q += 1;
        } else if c == ')' {
            if depth == 0 {
                return q;
            }
            depth -= 1;
            q += 1;
        } else {
            q += 1;
        }
    }
    q
}

/// Is the word this text?
pub fn is_text(word: &String, text: &str) -> (same: bool)
    ensures
        same == (word@ == text@),
{
    let other = String::from_str(text);
    *word == other
}

/// What the compiler chooses the utility of a keyword on.
pub struct Compiled {
    /// The elements.
    pub elements: Vec<String>,
    /// Whether the keyword has an arbitrary value before its first group.
    pub arbitrary: bool,
    /// How many groups lie inside each other.
    pub depth: usize,
}

/// Reads a keyword as the compiler reads it.
pub fn compile(keyword: &str) -> (compiled: Compiled)
    ensures
        compiled.elements.deep_view() == compiled_elements(keyword@),
        compiled.arbitrary == compiled_arbitrary(keyword@),
        compiled.depth == compiled_depth(keyword@),
{
    let chars = chars_of(keyword);
    let ghost text = chars@;
    let mut elements: Vec<String> = Vec::new();
    let mut arbitrary = false;
    let mut i: usize = 0;
    let mut hi: usize = chars.len();
    let mut top = true;
    let mut depth: usize = 0;
    assert(elements.deep_view() + chain_elements(text, 0, hi as int, true) =~= compiled_elements(
        text,
    ));
    loop
        invariant_except_break
            elements.deep_view() + chain_elements(text, i as int, hi as int, top)
                == compiled_elements(text),
            depth + chain_depth(text, i as int, hi as int) == compiled_depth(text),
        invariant
            depth <= i,
            i <= hi <= chars.len(),
            text == chars@,
            text == keyword@,
            !top ==> arbitrary == compiled_arbitrary(text),
            top ==> i == 0 && hi == chars.len(),
        ensures
            elements.deep_view() == compiled_elements(text),
            arbitrary == compiled_arbitrary(text),
            depth == compiled_depth(text),
        decreases hi - i,
    {
        let ghost before = elements.deep_view();
        let style = read_style(&chars, i, hi);
        if top {
            arbitrary = style.arbitrary;
        }
        let lone = !top && style.elements.len() == 1 && is_text(&style.elements[0], "&");
        proof {
            let read = style.elements.deep_view();
            if read.len() == 1 {
                assert(read[0] == style.elements[0]@);
                if read[0] == "&"@ {
                    assert(read =~= self_reference());
                }
            }
            assert(lone == (!top && read == self_reference()));
        }
        let ghost own = if lone {
            Seq::<Seq<char>>::empty()
        } else {
            style.elements.deep_view()
        };
        if !lone {
            let mut read = style.elements;
            elements.append(&mut read);
        }
        assert(elements.deep_view() =~= before + own);
        let s = style.end;
        let m = if at(&chars, s, hi, '(') {
            find_close(&chars, s + 1, hi)
        } else {
            hi
        };
        assert(m == group_close(text, i as int, hi as int));
        if m < hi {
            assert(elements.deep_view() + chain_elements(text, s + 1, m as int, false) =~= before
                + chain_elements(text, i as int, hi as int, top));
            i = s + 1;
            hi = m;
            top = false;
            depth += 1;
        } else {
            assert(elements.deep_view() =~= before + chain_elements(
                text,
                i as int,
                hi as int,
                top,
            ));
            break ;
        }
    }
    Compiled { elements, arbitrary, depth }
}

} // verus!
