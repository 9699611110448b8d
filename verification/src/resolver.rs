//! Telling utility keywords, which become inline style, from class names,
//! which pass through.
//!
//! The resolver is a function that its caller hands in. Asked about a
//! keyword, it answers with the declarations that the keyword stands for, or
//! with `None` where the keyword is no utility.

use crate::keywords::{is_word, keywords, keywords_of, lemma_keywords_are_words};
use vstd::prelude::*;

verus! {

/// An optional string as an optional sequence of characters.
pub open spec fn text_view(text: Option<String>) -> Option<Seq<char>> {
    match text {
        Some(t) => Some(t@),
        None => None,
    }
}

/// A keyword with what the resolver made of it.
#[derive(Debug, PartialEq, Eq)]
pub struct Resolved {
    /// The keyword.
    pub keyword: String,
    /// Its declarations, or `None` where it is a class name.
    pub declaration: Option<String>,
}

/// A `Resolved` over sequences of characters.
pub struct ResolvedView {
    pub keyword: Seq<char>,
    pub declaration: Option<Seq<char>>,
}

impl View for Resolved {
    type V = ResolvedView;

    open spec fn view(&self) -> ResolvedView {
        ResolvedView { keyword: self.keyword@, declaration: text_view(self.declaration) }
    }
}

impl DeepView for Resolved {
    type V = ResolvedView;

    open spec fn deep_view(&self) -> ResolvedView {
        self@
    }
}

/// The keywords that are class names, in order.
pub open spec fn pass_through(resolved: Seq<ResolvedView>) -> Seq<Seq<char>>
    decreases resolved.len(),
{
    if resolved.len() == 0 {
        Seq::empty()
    } else {
        let before = pass_through(resolved.drop_last());
        match resolved.last().declaration {
            None => before.push(resolved.last().keyword),
            Some(_) => before,
        }
    }
}

/// The declarations of the keywords that are utilities, in order.
pub open spec fn declarations(resolved: Seq<ResolvedView>) -> Seq<Seq<char>>
    decreases resolved.len(),
{
    if resolved.len() == 0 {
        Seq::empty()
    } else {
        let before = declarations(resolved.drop_last());
        match resolved.last().declaration {
            None => before,
            Some(declaration) => before.push(declaration),
        }
    }
}

/// The parts one after the other, with `separator` between each two.
pub open spec fn joined(parts: Seq<Seq<char>>, separator: Seq<char>) -> Seq<char>
    decreases parts.len(),
{
    if parts.len() == 0 {
        Seq::empty()
    } else if parts.len() == 1 {
        parts[0]
    } else {
        joined(parts.drop_last(), separator) + separator + parts.last()
    }
}

/// The class names, with a space between each two.
pub open spec fn class_names_of(resolved: Seq<ResolvedView>) -> Seq<char> {
    joined(pass_through(resolved), seq![' '])
}

/// The declarations, one after the other.
pub open spec fn style_declarations_of(resolved: Seq<ResolvedView>) -> Seq<char> {
    joined(declarations(resolved), Seq::empty())
}

/// Sorts resolved keywords into the class names, joined by spaces, and the
/// style declarations, joined by nothing.
pub fn partition(resolved: &Vec<Resolved>) -> (parts: (String, String))
    ensures
        parts.0@ == class_names_of(resolved.deep_view()),
        parts.1@ == style_declarations_of(resolved.deep_view()),
{
    let ghost all = resolved.deep_view();
    let mut class_names = String::new();
    let mut style_declarations = String::new();
    let mut any_class = false;
    let mut i: usize = 0;
    assert(all.take(0) =~= Seq::empty());
    while i < resolved.len()
        invariant
            i <= resolved.len(),
            all == resolved.deep_view(),
            class_names@ == class_names_of(all.take(i as int)),
            style_declarations@ == style_declarations_of(all.take(i as int)),
            any_class == (pass_through(all.take(i as int)).len() > 0),
        decreases resolved.len() - i,
    {
        proof {
            assert(all.take(i + 1).drop_last() =~= all.take(i as int));
            assert(all.take(i + 1).last() == resolved[i as int]@);
            let classes = pass_through(all.take(i + 1));
            let styles = declarations(all.take(i + 1));
            if resolved[i as int].declaration is None {
                assert(classes.drop_last() =~= pass_through(all.take(i as int)));
            } else {
                assert(styles.drop_last() =~= declarations(all.take(i as int)));
            }
        }
        match &resolved[i].declaration {
            Some(declaration) => {
                let ghost before = style_declarations@;
                style_declarations.append(declaration.as_str());
                assert(style_declarations@ =~= before + Seq::<char>::empty() + declaration@);
            },
            None => {
                let ghost before = class_names@;
                if any_class {
                    class_names.push(' ');
                    assert(class_names@ =~= before + seq![' ']);
                }
                class_names.append(resolved[i].keyword.as_str());
                any_class = true;
            },
        }
        i += 1;
    }
    assert(all.take(i as int) =~= all);
    (class_names, style_declarations)
}

/// May the resolver answer `declaration` when it is asked about `keyword`?
pub open spec fn may_answer<F: Fn(&str) -> Option<String>>(
    resolver: F,
    keyword: Seq<char>,
    declaration: Option<Seq<char>>,
) -> bool {
    exists|asked: &str, answer: Option<String>|
        asked@ == keyword && #[trigger] call_ensures(resolver, (asked,), answer) && text_view(answer)
            == declaration
}

/// Is `resolved` what the resolver may have made of the keywords: one entry
/// for each keyword, in order, with an answer of the resolver to it?
pub open spec fn answers<F: Fn(&str) -> Option<String>>(
    resolver: F,
    keywords: Seq<Seq<char>>,
    resolved: Seq<ResolvedView>,
) -> bool {
    &&& resolved.len() == keywords.len()
    &&& forall|i: int|
        0 <= i < keywords.len() ==> (#[trigger] resolved[i]).keyword == keywords[i] && may_answer(
            resolver,
            keywords[i],
            resolved[i].declaration,
        )
}

/// Are these the class names and the style declarations of the payload, by
/// some answers of the resolver to its keywords?
pub open spec fn resolves_to<F: Fn(&str) -> Option<String>>(
    resolver: F,
    payload: Seq<char>,
    class_names: Seq<char>,
    style_declarations: Seq<char>,
) -> bool {
    exists|resolved: Seq<ResolvedView>|
        #[trigger] answers(resolver, keywords_of(payload), resolved) && class_names
            == class_names_of(resolved) && style_declarations == style_declarations_of(resolved)
}

/// Asks the resolver about each keyword of the payload, once and in order,
/// and sorts the keywords into class names and style declarations. The
/// resolver has to take every word: every text that is not empty and holds no
/// white space.
pub fn resolve<F: Fn(&str) -> Option<String>>(payload: &str, resolver: &F) -> (parts: (
    String,
    String,
))
    requires
        forall|keyword: &str| is_word(keyword@) ==> call_requires(*resolver, (keyword,)),
    ensures
        resolves_to(*resolver, payload@, parts.0@, parts.1@),
{
    let words = keywords(payload);
    let ghost all = words.deep_view();
    let mut resolved: Vec<Resolved> = Vec::new();
    let mut i: usize = 0;
    proof {
        lemma_keywords_are_words(payload@);
    }
    while i < words.len()
        invariant
            i <= words.len(),
            all == words.deep_view(),
            forall|k: int| 0 <= k < all.len() ==> is_word(#[trigger] all[k]),
            forall|keyword: &str| is_word(keyword@) ==> call_requires(*resolver, (keyword,)),
            answers(*resolver, all.take(i as int), resolved.deep_view()),
        decreases words.len() - i,
    {
        let ghost before = resolved.deep_view();
        let keyword = words[i].as_str();
        assert(all[i as int] == keyword@);
        let declaration = resolver(keyword);
        assert(may_answer(*resolver, keyword@, text_view(declaration)));
        resolved.push(Resolved { keyword: words[i].clone(), declaration });
        assert(all[i as int] == words[i as int]@);
        assert(resolved.deep_view() =~= before.push(resolved[i as int]@));
        assert(all.take(i + 1) =~= all.take(i as int).push(all[i as int]));
        i += 1;
    }
    assert(all.take(i as int) =~= all);
    let parts = partition(&resolved);
    assert(answers(*resolver, keywords_of(payload@), resolved.deep_view()));
    parts
}

/// Every keyword is placed once: a class name among the class names, a
/// utility's declarations among the declarations, each at the place that its
/// rank among those of its kind gives it. None is placed twice and none is
/// left out.
pub proof fn lemma_every_keyword_placed(resolved: Seq<ResolvedView>, i: int)
    requires
        0 <= i < resolved.len(),
    ensures
        pass_through(resolved).len() + declarations(resolved).len() == resolved.len(),
        match resolved[i].declaration {
            None => {
                let rank = pass_through(resolved.take(i)).len() as int;
                rank < pass_through(resolved).len() && pass_through(resolved)[rank]
                    == resolved[i].keyword
            },
            Some(declaration) => {
                let rank = declarations(resolved.take(i)).len() as int;
                rank < declarations(resolved).len() && declarations(resolved)[rank] == declaration
            },
        },
    decreases resolved.len(),
{
    let before = resolved.drop_last();
    if i == resolved.len() - 1 {
        assert(resolved.take(i) =~= before);
        if before.len() > 0 {
            lemma_every_keyword_placed(before, 0);
        }
    } else {
        lemma_every_keyword_placed(before, i);
        assert(before.take(i) =~= resolved.take(i));
    }
}

/// Class names stand in the order of their keywords, and so do the
/// declarations: a keyword's rank among those of its sort is greater than
/// that of every keyword of its sort before it.
pub proof fn lemma_placed_in_order(resolved: Seq<ResolvedView>, i: int, j: int)
    requires
        0 <= i < j <= resolved.len(),
    ensures
        pass_through(resolved.take(i)).len() + (if resolved[i].declaration is None {
            1int
        } else {
            0int
        }) <= pass_through(resolved.take(j)).len(),
        declarations(resolved.take(i)).len() + (if resolved[i].declaration is Some {
            1int
        } else {
            0int
        }) <= declarations(resolved.take(j)).len(),
    decreases j - i,
{
    assert(resolved.take(j).drop_last() =~= resolved.take(j - 1));
    if i + 1 < j {
        lemma_placed_in_order(resolved, i, j - 1);
    }
}

/// An empty payload gives no class names and no style declarations,
/// whatever the resolver.
pub proof fn lemma_empty_payload<F: Fn(&str) -> Option<String>>(
    resolver: F,
    class_names: Seq<char>,
    style_declarations: Seq<char>,
)
    requires
        resolves_to(resolver, Seq::empty(), class_names, style_declarations),
    ensures
        keywords_of(Seq::empty()) == Seq::<Seq<char>>::empty(),
        class_names == Seq::<char>::empty(),
        style_declarations == Seq::<char>::empty(),
{
    let words = keywords_of(Seq::empty());
    assert(words =~= Seq::<Seq<char>>::empty());
    let resolved = choose|resolved: Seq<ResolvedView>|
        #[trigger] answers(resolver, words, resolved) && class_names == class_names_of(resolved)
            && style_declarations == style_declarations_of(resolved);
    assert(resolved =~= Seq::<ResolvedView>::empty());
}

} // verus!
