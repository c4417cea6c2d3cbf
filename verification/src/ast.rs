//! The typed tree produced by parsing a regular expression, together with
//! its mathematical view.
//!
//! The tree is strict: every node is exclusively owned by its parent. The
//! view types mirror the executable types with sequences in place of
//! vectors and strings, so that contracts can speak about trees as pure
//! mathematical values.

use vstd::prelude::*;

verus! {

/// How often a repeated group may occur.
#[derive(Clone, Copy, PartialEq, Eq, Debug)]
pub enum RepetitionType {
    /// At least this many times (`x*` is 0, `x+` is 1, `x{n,}` is `n`).
    OrMore(u32),
    /// Zero or one time (`x?`).
    ZeroOrOne,
    /// Exactly this many times (`x{n}`).
    Exactly(u32),
    /// At least the first and at most the second many times (`x{n,m}`).
    Between(u32, u32),
}

/// An escape sequence denoting a character class; the flag distinguishes
/// the positive from the negated form.
#[derive(Clone, Copy, PartialEq, Eq, Debug)]
pub enum MetaCharacter {
    Word(bool),
    Digit(bool),
    Whitespace(bool),
    Any,
}

/// A zero-width assertion.
#[derive(Clone, Copy, PartialEq, Eq, Debug)]
pub enum AnchorType {
    Start,
    End,
    WordBoundary,
    NotWordBoundary,
}

/// One member of a character class, or a whole class.
#[derive(PartialEq, Eq, Debug)]
pub enum CharacterType {
    /// A class matching any of its members.
    Any(Vec<Box<CharacterType>>),
    /// A negated class matching none of its members.
    Not(Vec<Box<CharacterType>>),
    /// A range between two members.
    Between(Box<CharacterType>, Box<CharacterType>),
    /// One literal character.
    Terminal(char),
    /// A meta character class.
    Meta(MetaCharacter),
}

/// A parsed regular expression.
#[derive(PartialEq, Eq, Debug)]
pub enum RegEx {
    /// A sequence of expressions, matched one after the other.
    Element(Vec<Box<RegEx>>),
    /// A repeated expression.
    Repetition(RepetitionType, Box<RegEx>),
    /// A choice between two or more expressions.
    Alternation(Vec<Box<RegEx>>),
    /// A character class.
    Character(CharacterType),
    /// A zero-width assertion.
    Anchor(AnchorType),
    /// A literal run of characters.
    Terminal(String),
    /// A capture group: optional name, 1-based group index, inner
    /// expression.
    Capture(Option<String>, usize, Box<RegEx>),
}

/// The mathematical view of a [`CharacterType`].
pub enum CharacterTypeView {
    Any(Seq<CharacterTypeView>),
    Not(Seq<CharacterTypeView>),
    Between(Box<CharacterTypeView>, Box<CharacterTypeView>),
    Terminal(char),
    Meta(MetaCharacter),
}

/// The mathematical view of a [`RegEx`].
pub enum RegExView {
    Element(Seq<RegExView>),
    Repetition(RepetitionType, Box<RegExView>),
    Alternation(Seq<RegExView>),
    Character(CharacterTypeView),
    Anchor(AnchorType),
    Terminal(Seq<char>),
    Capture(Option<Seq<char>>, int, Box<RegExView>),
}

/// The view of one character-class member.
pub open spec fn char_type_view(c: CharacterType) -> CharacterTypeView
    decreases c,
{
    match c {
        CharacterType::Any(v) => CharacterTypeView::Any(char_type_views(v@)),
        CharacterType::Not(v) => CharacterTypeView::Not(char_type_views(v@)),
        CharacterType::Between(a, b) => CharacterTypeView::Between(
            Box::new(char_type_view(*a)),
            Box::new(char_type_view(*b)),
        ),
        CharacterType::Terminal(ch) => CharacterTypeView::Terminal(ch),
        CharacterType::Meta(m) => CharacterTypeView::Meta(m),
    }
}

/// The views of a list of character-class members.
pub open spec fn char_type_views(s: Seq<Box<CharacterType>>) -> Seq<CharacterTypeView>
    decreases s,
{
    if s.len() == 0 {
        Seq::empty()
    } else {
        char_type_views(s.drop_last()).push(char_type_view(*s.last()))
    }
}

/// The view of a parsed regular expression.
pub open spec fn regex_view(r: RegEx) -> RegExView
    decreases r,
{
    match r {
        RegEx::Element(v) => RegExView::Element(regex_views(v@)),
        RegEx::Repetition(t, b) => RegExView::Repetition(t, Box::new(regex_view(*b))),
        RegEx::Alternation(v) => RegExView::Alternation(regex_views(v@)),
        RegEx::Character(c) => RegExView::Character(char_type_view(c)),
        RegEx::Anchor(a) => RegExView::Anchor(a),
        RegEx::Terminal(s) => RegExView::Terminal(s@),
        RegEx::Capture(name, index, b) => RegExView::Capture(
            match name {
                Option::Some(n) => Option::Some(n@),
                Option::None => Option::None,
            },
            index as int,
            Box::new(regex_view(*b)),
        ),
    }
}

/// The views of a list of expressions.
pub open spec fn regex_views(s: Seq<Box<RegEx>>) -> Seq<RegExView>
    decreases s,
{
    if s.len() == 0 {
        Seq::empty()
    } else {
        regex_views(s.drop_last()).push(regex_view(*s.last()))
    }
}

impl View for CharacterType {
    type V = CharacterTypeView;

    open spec fn view(&self) -> CharacterTypeView {
        char_type_view(*self)
    }
}

impl View for RegEx {
    type V = RegExView;

    open spec fn view(&self) -> RegExView {
        regex_view(*self)
    }
}

/// Appending one expression appends its view.
pub proof fn lemma_regex_views_push(s: Seq<Box<RegEx>>, b: Box<RegEx>)
    ensures
        regex_views(s.push(b)) == regex_views(s).push(regex_view(*b)),
{
    assert(s.push(b).drop_last() =~= s);
    assert(s.push(b).last() == b);
}

/// The views of a list of expressions, element by element.
pub proof fn lemma_regex_views_index(s: Seq<Box<RegEx>>)
    ensures
        regex_views(s).len() == s.len(),
        forall|i: int| 0 <= i < s.len() ==> #[trigger] regex_views(s)[i] == regex_view(*s[i]),
    decreases s,
{
    if s.len() > 0 {
        lemma_regex_views_index(s.drop_last());
    }
}

/// Appending one member appends its view.
pub proof fn lemma_char_type_views_push(s: Seq<Box<CharacterType>>, b: Box<CharacterType>)
    ensures
        char_type_views(s.push(b)) == char_type_views(s).push(char_type_view(*b)),
{
    assert(s.push(b).drop_last() =~= s);
    assert(s.push(b).last() == b);
}

/// The views of a list of members, element by element.
pub proof fn lemma_char_type_views_index(s: Seq<Box<CharacterType>>)
    ensures
        char_type_views(s).len() == s.len(),
        forall|i: int| 0 <= i < s.len() ==> #[trigger] char_type_views(s)[i] == char_type_view(
            *s[i],
        ),
    decreases s,
{
    if s.len() > 0 {
        lemma_char_type_views_index(s.drop_last());
    }
}

} // verus!

verus! {

/// The structural invariant of a parsed tree: an alternation never has
/// fewer than two branches.
pub open spec fn ast_wf(t: RegExView) -> bool
    decreases t,
{
    match t {
        RegExView::Element(v) => ast_list_wf(v),
        RegExView::Alternation(v) => v.len() >= 2 && ast_list_wf(v),
        RegExView::Repetition(_, x) => ast_wf(*x),
        RegExView::Capture(_, _, x) => ast_wf(*x),
        _ => true,
    }
}

/// Every tree of the list satisfies the structural invariant.
pub open spec fn ast_list_wf(v: Seq<RegExView>) -> bool
    decreases v,
{
    v.len() == 0 || (ast_list_wf(v.drop_last()) && ast_wf(v.last()))
}

} // verus!
