//! The utilities of `tailwind_css` as a resolver.

use crate::instruction::{
    compile, compiled_arbitrary, compiled_depth, compiled_elements, is_text,
};
use crate::keywords::{is_whitespace, is_word, keywords_of, whitespace};
use crate::resolver::{
    answers, class_names_of, resolves_to, style_declarations_of, text_view, ResolvedView,
};
use crate::text::chars_of;
use tailwind_css::TailwindBuilder;
use vstd::prelude::*;

verus! {

/// The style declarations that `TailwindBuilder::inline`, called on a new
/// builder with the built-in settings, gives for `keyword`, or `None` where it
/// rejects the keyword.
pub uninterp spec fn inline_style(keyword: Seq<char>) -> Option<Seq<char>>;

/// Does `part` stand somewhere in `text`?
pub open spec fn mentions(text: Seq<char>, part: Seq<char>) -> bool {
    exists|i: int|
        0 <= i <= text.len() - part.len() && #[trigger] text.subrange(i, i + part.len()) == part
}

/// Is `text` the word at place `k`?
pub open spec fn word_at(words: Seq<Seq<char>>, k: int, text: Seq<char>) -> bool {
    0 <= k < words.len() && words[k] == text
}

/// Does the compiler know the value of `break-`? It knows what begins with
/// `before`, `inside` or `after`, and the values `normal`, `words`, `all`,
/// `break-all`, `keep-all`, `inherit`, `initial`, `revert` and `unset`.
pub open spec fn break_known(elements: Seq<Seq<char>>) -> bool {
    ||| word_at(elements, 1, "before"@)
    ||| word_at(elements, 1, "inside"@)
    ||| word_at(elements, 1, "after"@)
    ||| elements.len() == 2 && (elements[1] == "normal"@ || elements[1] == "words"@ || elements[1]
        == "all"@ || elements[1] == "inherit"@ || elements[1] == "initial"@ || elements[1]
        == "revert"@ || elements[1] == "unset"@)
    ||| elements.len() == 3 && elements[2] == "all"@ && (elements[1] == "break"@ || elements[1]
        == "keep"@)
}

/// Does the compiler know the value of `content-`? It knows an arbitrary
/// value alone, what begins with `align`, the values `center`, `start`,
/// `end`, `between`, `around` and `evenly`, and `none`, `normal`, `inherit`,
/// `initial`, `revert`, `unset`, `open-quote`, `close-quote`,
/// `no-open-quote` and `no-close-quote`.
pub open spec fn content_known(elements: Seq<Seq<char>>, arbitrary: bool) -> bool {
    ||| elements.len() == 1 && arbitrary
    ||| word_at(elements, 1, "align"@)
    ||| elements.len() == 2 && (elements[1] == "center"@ || elements[1] == "start"@ || elements[1]
        == "end"@ || elements[1] == "between"@ || elements[1] == "around"@ || elements[1]
        == "evenly"@ || elements[1] == "none"@ || elements[1] == "normal"@ || elements[1]
        == "inherit"@ || elements[1] == "initial"@ || elements[1] == "revert"@ || elements[1]
        == "unset"@)
    ||| elements.len() == 3 && elements[2] == "quote"@ && (elements[1] == "open"@ || elements[1]
        == "close"@)
    ||| elements.len() == 4 && elements[1] == "no"@ && elements[3] == "quote"@ && (elements[2]
        == "open"@ || elements[2] == "close"@)
}

/// Are the elements a grid line: `col` or `row`, `start` or `end`, and one
/// element more?
pub open spec fn grid_line(elements: Seq<Seq<char>>) -> bool {
    &&& elements.len() == 3
    &&& elements[0] == "col"@ || elements[0] == "row"@
    &&& elements[1] == "start"@ || elements[1] == "end"@
}

/// Does the compiler stop on these elements instead of answering?
///
/// It stops on the utility `prose`, which it has not finished. Built with
/// its debug assertions it also stops on a value of `break-` or of
/// `content-` that it does not know, and on every grid line.
pub open spec fn stops_on(elements: Seq<Seq<char>>, arbitrary: bool) -> bool {
    ||| elements.len() == 1 && elements[0] == "prose"@
    ||| word_at(elements, 0, "break"@) && !break_known(elements)
    ||| word_at(elements, 0, "content"@) && !content_known(elements, arbitrary)
    ||| grid_line(elements)
}

/// How many opening round brackets stand among the first `n` characters.
pub open spec fn opened(text: Seq<char>, n: int) -> nat
    decreases n,
{
    if n <= 0 || n > text.len() {
        0
    } else {
        opened(text, n - 1) + if text[n - 1] == '(' {
            1nat
        } else {
            0nat
        }
    }
}

/// Has the text more opening round brackets than the compiler's parser, which
/// calls itself for each group inside a group, is trusted with?
pub open spec fn too_deep(text: Seq<char>) -> bool {
    opened(text, text.len() as int) > 8
}

/// Are the elements, the arbitrary value and the depth of a word such that
/// the compiler may stop on it: does it stop on the elements, or do more
/// than eight groups lie inside each other, for which its parser, calling
/// itself for each, may want more stack than there is?
pub open spec fn stops_word(keyword: Seq<char>) -> bool {
    compiled_depth(keyword) > 8 || stops_on(
        compiled_elements(keyword),
        compiled_arbitrary(keyword),
    )
}

/// May the utility compiler stop on `keyword` instead of answering?
///
/// Of a word, which is what a keyword is, this is told from what the
/// compiler reads from it. A text that is no word the compiler reads as
/// several keywords; of such a text it is so where it holds more than eight
/// opening round brackets or one of the elements on which the compiler can
/// stop.
pub open spec fn stops_compiler(keyword: Seq<char>) -> bool {
    if is_word(keyword) {
        stops_word(keyword)
    } else {
        ||| too_deep(keyword)
        ||| mentions(keyword, "prose"@)
        ||| mentions(keyword, "break"@)
        ||| mentions(keyword, "content"@)
        ||| mentions(keyword, "start"@)
        ||| mentions(keyword, "end"@)
    }
}

/// The style declarations that a keyword stands for as a utility, or `None`
/// where it is a class name. A keyword on which the compiler may stop is a
/// class name.
pub open spec fn utility_declaration(keyword: Seq<char>) -> Option<Seq<char>> {
    if stops_compiler(keyword) {
        None
    } else {
        inline_style(keyword)
    }
}

/// Does `part` stand somewhere in `text`?
pub fn holds(text: &Vec<char>, part: &str) -> (found: bool)
    ensures
        found == mentions(text@, part@),
{
    let wanted = chars_of(part);
    let n = text.len();
    let m = wanted.len();
    if m > n {
        return false;
    }
    let mut i: usize = 0;
    while i <= n - m
        invariant
            m <= n,
            n == text.len(),
            m == wanted.len(),
            wanted@ == part@,
            i <= n - m + 1,
            forall|k: int| 0 <= k < i ==> #[trigger] text@.subrange(k, k + m) != wanted@,
        decreases n - m + 1 - i,
    {
        let mut j: usize = 0;
        while j < m && text[i + j] == wanted[j]
            invariant
                m <= n,
                n == text.len(),
                m == wanted.len(),
                i <= n - m,
                j <= m,
                forall|k: int| 0 <= k < j ==> text[i + k] == wanted[k],
            decreases m - j,
        {
            j += 1;
        }
        if j == m {
            assert(text@.subrange(i as int, i + m) =~= wanted@);
            return true;
        }
        assert(text@.subrange(i as int, i + m)[j as int] != wanted@[j as int]);
        i += 1;
    }
    false
}

/// Is the text a word: not empty, and without white space?
pub fn word(chars: &Vec<char>) -> (b: bool)
    ensures
        b == is_word(chars@),
{
    if chars.len() == 0 {
        return false;
    }
    let mut i: usize = 0;
    while i < chars.len()
        invariant
            i <= chars.len(),
            forall|j: int| 0 <= j < i ==> !is_whitespace(#[trigger] chars@[j]),
        decreases chars.len() - i,
    {
        if whitespace(chars[i]) {
            return false;
        }
        i += 1;
    }
    true
}

/// Has the text more opening round brackets than the compiler's parser is
/// trusted with?
pub fn deep(chars: &Vec<char>) -> (b: bool)
    ensures
        b == too_deep(chars@),
{
    let mut count: usize = 0;
    let mut i: usize = 0;
    while i < chars.len()
        invariant
            i <= chars.len(),
            count <= i,
            count == opened(chars@, i as int),
        decreases chars.len() - i,
    {
        if chars[i] == '(' {
            count += 1;
        }
        i += 1;
    }
    count > 8
}

/// Is the text the element at place `k`?
fn element_is(elements: &Vec<String>, k: usize, text: &str) -> (same: bool)
    ensures
        same == word_at(elements.deep_view(), k as int, text@),
{
    if k < elements.len() {
        assert(elements.deep_view()[k as int] == elements[k as int]@);
        is_text(&elements[k], text)
    } else {
        false
    }
}

/// Does the compiler know the value of `break-`?
fn knows_break(elements: &Vec<String>) -> (known: bool)
    ensures
        known == break_known(elements.deep_view()),
{
    let n = elements.len();
    assert(elements.deep_view().len() == n);
    element_is(elements, 1, "before") || element_is(elements, 1, "inside") || element_is(
        elements,
        1,
        "after",
    ) || (n == 2 && (element_is(elements, 1, "normal") || element_is(elements, 1, "words")
        || element_is(elements, 1, "all") || element_is(elements, 1, "inherit") || element_is(
        elements,
        1,
        "initial",
    ) || element_is(elements, 1, "revert") || element_is(elements, 1, "unset"))) || (n == 3
        && element_is(elements, 2, "all") && (element_is(elements, 1, "break") || element_is(
        elements,
        1,
        "keep",
    )))
}

/// Does the compiler know the value of `content-`?
fn knows_content(elements: &Vec<String>, arbitrary: bool) -> (known: bool)
    ensures
        known == content_known(elements.deep_view(), arbitrary),
{
    let n = elements.len();
    assert(elements.deep_view().len() == n);
    (n == 1 && arbitrary) || element_is(elements, 1, "align") || (n == 2 && (element_is(
        elements,
        1,
        "center",
    ) || element_is(elements, 1, "start") || element_is(elements, 1, "end") || element_is(
        elements,
        1,
        "between",
    ) || element_is(elements, 1, "around") || element_is(elements, 1, "evenly") || element_is(
        elements,
        1,
        "none",
    ) || element_is(elements, 1, "normal") || element_is(elements, 1, "inherit") || element_is(
        elements,
        1,
        "initial",
    ) || element_is(elements, 1, "revert") || element_is(elements, 1, "unset"))) || (n == 3
        && element_is(elements, 2, "quote") && (element_is(elements, 1, "open") || element_is(
        elements,
        1,
        "close",
    ))) || (n == 4 && element_is(elements, 1, "no") && element_is(elements, 3, "quote") && (
    element_is(elements, 2, "open") || element_is(elements, 2, "close")))
}

/// Does the compiler stop on these elements instead of answering?
pub fn stops(elements: &Vec<String>, arbitrary: bool) -> (b: bool)
    ensures
        b == stops_on(elements.deep_view(), arbitrary),
{
    let n = elements.len();
    assert(elements.deep_view().len() == n);
    (n == 1 && element_is(elements, 0, "prose")) || (element_is(elements, 0, "break")
        && !knows_break(elements)) || (element_is(elements, 0, "content") && !knows_content(
        elements,
        arbitrary,
    )) || (n == 3 && (element_is(elements, 0, "col") || element_is(elements, 0, "row")) && (
    element_is(elements, 1, "start") || element_is(elements, 1, "end")))
}

/// May the utility compiler stop on `keyword` instead of answering?
pub fn may_stop(keyword: &str) -> (b: bool)
    ensures
        b == stops_compiler(keyword@),
{
    let chars = chars_of(keyword);
    if word(&chars) {
        let compiled = compile(keyword);
        compiled.depth > 8 || stops(&compiled.elements, compiled.arbitrary)
    } else {
        deep(&chars) || holds(&chars, "prose") || holds(&chars, "break") || holds(&chars, "content") || holds(
            &chars,
            "start",
        ) || holds(&chars, "end")
    }
}

/// `TailwindBuilder::inline`, called on the builder that
/// `TailwindBuilder::default` makes, compiles the keyword. It gives the
/// classes that cannot stand inline, which are dropped here, and the style
/// declarations of the others; or an error where the keyword names no
/// utility. Nothing but the keyword goes into the result. On some keywords
/// the call does not return: on those whose elements `stops_on` tells, and,
/// for want of stack, on groups that lie deep inside each other. The
/// contract leaves out what `stops_compiler` tells.
#[verifier::external_body]
fn inline(keyword: &str) -> (style: Option<String>)
    requires
        !stops_compiler(keyword@),
    ensures
        text_view(style) == inline_style(keyword@),
{
    match TailwindBuilder::default().inline(keyword) {
        Ok(inlined) => Some(inlined.1),
        Err(_) => None,
    }
}

/// The style declarations that `keyword` stands for as a utility of
/// `tailwind_css`, or `None` where it is a class name.
pub fn utility_style(keyword: &str) -> (style: Option<String>)
    ensures
        text_view(style) == utility_declaration(keyword@),
{
    if may_stop(keyword) {
        None
    } else {
        inline(keyword)
    }
}

/// Each keyword with what it stands for as a utility.
pub open spec fn utility_resolutions(keywords: Seq<Seq<char>>) -> Seq<ResolvedView> {
    keywords.map_values(
        |keyword: Seq<char>| ResolvedView { keyword, declaration: utility_declaration(keyword) },
    )
}

/// The class names of a payload: its keywords that are no utilities.
pub open spec fn utility_class_names(payload: Seq<char>) -> Seq<char> {
    class_names_of(utility_resolutions(keywords_of(payload)))
}

/// The style declarations of a payload: those of its keywords that are
/// utilities.
pub open spec fn utility_style_declarations(payload: Seq<char>) -> Seq<char> {
    style_declarations_of(utility_resolutions(keywords_of(payload)))
}

/// The utilities answer each keyword in one way only, so that what a payload
/// resolves to with them is fixed.
pub proof fn lemma_utilities_resolve(
    payload: Seq<char>,
    class_names: Seq<char>,
    style_declarations: Seq<char>,
)
    requires
        resolves_to(utility_style, payload, class_names, style_declarations),
    ensures
        class_names == utility_class_names(payload),
        style_declarations == utility_style_declarations(payload),
{
    let keywords = keywords_of(payload);
    let resolved = choose|resolved: Seq<ResolvedView>|
        #[trigger] answers(utility_style, keywords, resolved) && class_names == class_names_of(
            resolved,
        ) && style_declarations == style_declarations_of(resolved);
    assert forall|i: int| 0 <= i < keywords.len() implies #[trigger] resolved[i]
        == utility_resolutions(keywords)[i] by {
        let (asked, answer) = choose|asked: &str, answer: Option<String>|
            asked@ == keywords[i] && #[trigger] call_ensures(utility_style, (asked,), answer)
                && text_view(answer) == resolved[i].declaration;
        assert(text_view(answer) == utility_declaration(asked@));
    }
    assert(resolved =~= utility_resolutions(keywords));
}

} // verus!
