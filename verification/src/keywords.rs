//! Splitting a payload into keywords.

use crate::text::{chars_of, string_of};
use vstd::prelude::*;

verus! {

/// Is `c` white space? These are the code points with the Unicode property
/// `White_Space`.
pub open spec fn is_whitespace(c: char) -> bool {
    let n = c as u32;
    ||| 0x09 <= n <= 0x0D
    ||| n == 0x20
    ||| n == 0x85
    ||| n == 0xA0
    ||| n == 0x1680
    ||| 0x2000 <= n <= 0x200A
    ||| n == 0x2028
    ||| n == 0x2029
    ||| n == 0x202F
    ||| n == 0x205F
    ||| n == 0x3000
}

/// Is `c` white space?
pub fn whitespace(c: char) -> (b: bool)
    ensures
        b == is_whitespace(c),
{
    let n: u32 = c as u32;
    (0x09 <= n && n <= 0x0D) || n == 0x20 || n == 0x85 || n == 0xA0 || n == 0x1680 || (0x2000 <= n
        && n <= 0x200A) || n == 0x2028 || n == 0x2029 || n == 0x202F || n == 0x205F || n == 0x3000
}

/// The run `text[start..i]` as a list: one keyword, or none if it is empty.
pub open spec fn run_between(text: Seq<char>, start: int, i: int) -> Seq<Seq<char>> {
    if start < i {
        seq![text.subrange(start, i)]
    } else {
        Seq::empty()
    }
}

/// The keywords of `text` from `start` on, where `text[start..i]` is known to
/// hold no white space: the run that `start` begins, once it ends, and the
/// runs after it.
pub open spec fn keywords_from(text: Seq<char>, start: int, i: int) -> Seq<Seq<char>>
    decreases text.len() - i,
{
    if i >= text.len() {
        run_between(text, start, i)
    } else if is_whitespace(text[i]) {
        run_between(text, start, i) + keywords_from(text, i + 1, i + 1)
    } else {
        keywords_from(text, start, i + 1)
    }
}

/// The keywords of a payload: its longest runs without white space, in order.
pub open spec fn keywords_of(payload: Seq<char>) -> Seq<Seq<char>> {
    keywords_from(payload, 0, 0)
}

/// Splits a payload at white space. Nothing empty is among the keywords.
pub fn keywords(payload: &str) -> (words: Vec<String>)
    ensures
        words.deep_view() == keywords_of(payload@),
{
    let chars = chars_of(payload);
    let ghost text = chars@;
    let mut words: Vec<String> = Vec::new();
    let mut start: usize = 0;
    let mut i: usize = 0;
    assert(words.deep_view() + keywords_from(text, 0, 0) =~= keywords_of(text));
    while i < chars.len()
        invariant
            start <= i <= chars.len(),
            text == chars@,
            words.deep_view() + keywords_from(text, start as int, i as int) == keywords_of(text),
        decreases chars.len() - i,
    {
        if whitespace(chars[i]) {
            let ghost before = words.deep_view();
            if start < i {
                let word = string_of(&chars, start, i);
                words.push(word);
                assert(words.deep_view() =~= before + run_between(text, start as int, i as int));
            }
            assert(words.deep_view() + keywords_from(text, i + 1, i + 1) =~= before + keywords_from(
                text,
                start as int,
                i as int,
            ));
            start = i + 1;
        }
        i += 1;
    }
    let ghost before = words.deep_view();
    if start < i {
        let word = string_of(&chars, start, i);
        words.push(word);
    }
    assert(words.deep_view() =~= before + run_between(text, start as int, i as int));
    words
}

/// Is `word` a word: not empty, and without white space?
pub open spec fn is_word(word: Seq<char>) -> bool {
    &&& word.len() > 0
    &&& forall|j: int| 0 <= j < word.len() ==> !is_whitespace(#[trigger] word[j])
}

/// No keyword is empty and none holds white space.
pub proof fn lemma_keywords_are_words(payload: Seq<char>)
    ensures
        forall|k: int|
            0 <= k < keywords_of(payload).len() ==> is_word(#[trigger] keywords_of(payload)[k]),
{
    lemma_runs_are_words(payload, 0, 0);
}

/// The keywords from a run without white space on are words.
proof fn lemma_runs_are_words(text: Seq<char>, start: int, i: int)
    requires
        0 <= start <= i <= text.len(),
        forall|j: int| start <= j < i ==> !is_whitespace(#[trigger] text[j]),
    ensures
        forall|k: int|
            0 <= k < keywords_from(text, start, i).len() ==> is_word(
                #[trigger] keywords_from(text, start, i)[k],
            ),
    decreases text.len() - i,
{
    let words = keywords_from(text, start, i);
    let first = run_between(text, start, i);
    if start < i {
        assert(is_word(text.subrange(start, i)));
    }
    if i >= text.len() {
        assert forall|k: int| 0 <= k < words.len() implies is_word(#[trigger] words[k]) by {
            assert(words[k] == text.subrange(start, i));
        }
    } else if is_whitespace(text[i]) {
        lemma_runs_are_words(text, i + 1, i + 1);
        let rest = keywords_from(text, i + 1, i + 1);
        assert forall|k: int| 0 <= k < words.len() implies is_word(#[trigger] words[k]) by {
            if k >= first.len() {
                assert(words[k] == rest[k - first.len()]);
            } else {
                assert(words[k] == text.subrange(start, i));
            }
        }
    } else {
        lemma_runs_are_words(text, start, i + 1);
        assert(words == keywords_from(text, start, i + 1));
    }
}

/// The predicate that a character is not white space.
pub open spec fn not_whitespace() -> spec_fn(char) -> bool {
    |c: char| !is_whitespace(c)
}

/// The words one after the other, with nothing between them.
pub open spec fn concatenated(words: Seq<Seq<char>>) -> Seq<char>
    decreases words.len(),
{
    if words.len() == 0 {
        Seq::empty()
    } else {
        words[0] + concatenated(words.drop_first())
    }
}

/// Splitting loses no character but white space: the keywords, one after the
/// other, are the payload without its white space.
pub proof fn lemma_keywords_keep_every_character(payload: Seq<char>)
    ensures
        concatenated(keywords_of(payload)) == payload.filter(not_whitespace()),
{
    lemma_runs_keep_every_character(payload, 0, 0);
    assert(payload.subrange(0, 0) + payload.subrange(0, payload.len() as int).filter(
        not_whitespace(),
    ) =~= payload.filter(not_whitespace())) by {
        assert(payload.subrange(0, payload.len() as int) =~= payload);
    }
}

/// The keywords from a run without white space on are, one after the other,
/// the run and what follows it without its white space.
proof fn lemma_runs_keep_every_character(text: Seq<char>, start: int, i: int)
    requires
        0 <= start <= i <= text.len(),
    ensures
        concatenated(keywords_from(text, start, i)) == text.subrange(start, i) + text.subrange(
            i,
            text.len() as int,
        ).filter(not_whitespace()),
    decreases text.len() - i,
{
    let n = text.len() as int;
    let first = run_between(text, start, i);
    assert(concatenated(first) =~= text.subrange(start, i)) by {
        if start < i {
            assert(first.drop_first() =~= Seq::<Seq<char>>::empty());
            assert(concatenated(first.drop_first()) =~= Seq::<char>::empty());
        }
    }
    if i >= n {
        assert(text.subrange(i, n).filter(not_whitespace()) =~= Seq::<char>::empty()) by {
            reveal(Seq::filter);
        }
        assert(concatenated(first) =~= text.subrange(start, i) + Seq::<char>::empty());
    } else {
        let here = seq![text[i]];
        assert(text.subrange(i, n) =~= here + text.subrange(i + 1, n));
        Seq::filter_distributes_over_add(here, text.subrange(i + 1, n), not_whitespace());
        assert(here.filter(not_whitespace()) =~= if is_whitespace(text[i]) {
            Seq::<char>::empty()
        } else {
            here
        }) by {
            reveal_with_fuel(Seq::filter, 2);
            assert(here.drop_last() =~= Seq::<char>::empty());
        }
        if is_whitespace(text[i]) {
            let rest = keywords_from(text, i + 1, i + 1);
            lemma_runs_keep_every_character(text, i + 1, i + 1);
            assert(text.subrange(i + 1, i + 1) =~= Seq::<char>::empty());
            if start < i {
                assert((first + rest)[0] == text.subrange(start, i));
                assert((first + rest).drop_first() =~= rest);
            } else {
                assert(first + rest =~= rest);
            }
            assert(concatenated(first + rest) =~= text.subrange(start, i) + concatenated(rest));
        } else {
            lemma_runs_keep_every_character(text, start, i + 1);
            assert(text.subrange(start, i + 1) =~= text.subrange(start, i) + here);
        }
    }
}

} // verus!
