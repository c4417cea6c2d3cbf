//! The natural-language renderer: turns a parsed regular expression into
//! ordered description lines plus highlight spans marking the structural
//! headers.

use vstd::prelude::*;
use vstd::string::StrSliceExecFns;
use crate::ast::CharacterType;
use crate::ast::CharacterTypeView;
use crate::ast::RegEx;
use crate::ast::RegExView;
use crate::ast::RepetitionType;
use crate::ast::AnchorType;
use crate::ast::char_type_view;
use crate::ast::char_type_views;
use crate::ast::lemma_char_type_views_index;
use crate::ast::lemma_regex_views_index;
use crate::ast::regex_view;
use crate::ast::regex_views;
use crate::error::Error;
use crate::strings::push_char;
use crate::strings::append_str;
use crate::strings::chars_vec;
use crate::strings::string_of_chars;
use crate::strings::decimal_string;
use crate::strings::spec_decimal;

verus! {

/// Whether a class member can be described: a literal or a range of
/// literals, nothing else.
pub open spec fn text_rc_ok(c: CharacterTypeView) -> bool
    decreases c,
{
    match c {
        CharacterTypeView::Between(a, b) => text_rc_ok(*a) && text_rc_ok(*b),
        CharacterTypeView::Terminal(_) => true,
        _ => false,
    }
}

/// The description of a class member: `[lo-hi]` for ranges, the literal
/// character otherwise.
pub open spec fn spec_text_rc(c: CharacterTypeView) -> Seq<char>
    decreases c,
{
    match c {
        CharacterTypeView::Between(a, b) => seq!['['] + spec_text_rc(*a) + seq!['-']
            + spec_text_rc(*b) + seq![']'],
        CharacterTypeView::Terminal(ch) => seq![ch],
        _ => Seq::empty(),
    }
}

/// Every member of the list can be described.
pub open spec fn text_rc_list_ok(s: Seq<CharacterTypeView>) -> bool
    decreases s,
{
    s.len() == 0 || (text_rc_list_ok(s.drop_last()) && text_rc_ok(s.last()))
}

/// The concatenated member descriptions of a positive class, each
/// preceded by one space.
pub open spec fn spec_match_members(s: Seq<CharacterTypeView>) -> Seq<char>
    decreases s,
{
    if s.len() == 0 {
        Seq::empty()
    } else {
        spec_match_members(s.drop_last()) + seq![' '] + spec_text_rc(s.last())
    }
}

/// The concatenated member descriptions of a negated class.
pub open spec fn spec_not_members(s: Seq<CharacterTypeView>) -> Seq<char>
    decreases s,
{
    if s.len() == 0 {
        Seq::empty()
    } else {
        spec_not_members(s.drop_last()) + spec_text_rc(s.last())
    }
}

/// Whether the text renderer accepts a tree: anchors other than line
/// start and end, capture groups, bare class payloads and empty
/// alternations are representation errors.
pub open spec fn te_ok(t: RegExView) -> bool
    decreases t,
{
    match t {
        RegExView::Anchor(a) => a is Start || a is End,
        RegExView::Element(v) => te_list_ok(v),
        RegExView::Repetition(_, x) => te_ok(*x),
        RegExView::Alternation(v) => v.len() >= 1 && te_list_ok(v),
        RegExView::Character(c) => match c {
            CharacterTypeView::Any(b) => text_rc_list_ok(b),
            CharacterTypeView::Not(b) => text_rc_list_ok(b),
            _ => false,
        },
        RegExView::Terminal(_) => true,
        RegExView::Capture(_, _, _) => false,
    }
}

/// The text renderer accepts every tree of the list.
pub open spec fn te_list_ok(v: Seq<RegExView>) -> bool
    decreases v,
{
    v.len() == 0 || (te_list_ok(v.drop_last()) && te_ok(v.last()))
}

/// The header of a repetition description.
pub open spec fn spec_rep_header(rt: RepetitionType) -> Seq<char> {
    match rt {
        RepetitionType::ZeroOrOne => seq!['0', ' ', 'O', 'R', ' ', '1', ':'],
        RepetitionType::OrMore(n) => spec_decimal(n as nat) + seq![
            ' ',
            'O',
            'R',
            ' ',
            'M',
            'O',
            'R',
            'E',
            ':',
        ],
        RepetitionType::Exactly(n) => seq!['E', 'X', 'A', 'C', 'T', 'L', 'Y', ' ']
            + spec_decimal(n as nat) + seq![':'],
        RepetitionType::Between(n, m) => seq!['B', 'E', 'T', 'W', 'E', 'E', 'N', ' ']
            + spec_decimal(n as nat) + seq![' ', 'A', 'N', 'D', ' '] + spec_decimal(m as nat)
            + seq![':'],
    }
}

/// The description of one tree, rendered at output row `row`: the text
/// produced (newlines embedded) and the highlight spans recorded, in
/// order.
pub open spec fn spec_te(t: RegExView, row: int) -> (Seq<char>, Seq<(int, int, int)>)
    decreases t, 1int,
{
    match t {
        RegExView::Anchor(a) => (
            if a is Start {
                seq!['S', 't', 'a', 'r', 't']
            } else {
                seq!['E', 'n', 'd']
            },
            Seq::empty(),
        ),
        RegExView::Element(v) => spec_te_cat(v, row),
        RegExView::Repetition(rt, x) => {
            let inner = spec_te(*x, row);
            let header = spec_rep_header(rt);
            let msg = header + seq!['\n', ' ', ' ', ' ', ' '] + inner.0;
            if rt is ZeroOrOne {
                (msg, inner.1)
            } else {
                (msg, seq![(row, 0, header.len() as int)] + inner.1)
            }
        },
        RegExView::Alternation(v) => spec_te_alt(v, row),
        RegExView::Character(c) => match c {
            CharacterTypeView::Any(b) => (
                seq!['M', 'A', 'T', 'C', 'H', ':', '\n'] + spec_match_members(b),
                seq![(row, 0, 7)],
            ),
            CharacterTypeView::Not(b) => (
                seq!['D', 'O', 'N', '\'', 'T', ' ', 'M', 'A', 'T', 'C', 'H', ':', '\n']
                    + spec_not_members(b),
                seq![(row, 0, 13)],
            ),
            _ => (Seq::empty(), Seq::empty()),
        },
        RegExView::Terminal(s) => (seq!['\''] + s + seq!['\''], Seq::empty()),
        RegExView::Capture(_, _, _) => (Seq::empty(), Seq::empty()),
    }
}

/// The concatenated descriptions of the trees of an element.
pub open spec fn spec_te_cat(v: Seq<RegExView>, row: int) -> (Seq<char>, Seq<(int, int, int)>)
    decreases v, 0int,
{
    if v.len() == 0 {
        (Seq::empty(), Seq::empty())
    } else {
        let prev = spec_te_cat(v.drop_last(), row);
        let last = spec_te(v.last(), row);
        (prev.0 + last.0, prev.1 + last.1)
    }
}

/// The descriptions of the branches of an alternation, joined by
/// `" OR "`.
pub open spec fn spec_te_alt(v: Seq<RegExView>, row: int) -> (Seq<char>, Seq<(int, int, int)>)
    decreases v, 0int,
{
    if v.len() == 0 {
        (Seq::empty(), Seq::empty())
    } else if v.len() == 1 {
        spec_te(v.last(), row)
    } else {
        let prev = spec_te_alt(v.drop_last(), row);
        let last = spec_te(v.last(), row);
        (prev.0 + seq![' ', 'O', 'R', ' '] + last.0, prev.1 + last.1)
    }
}

/// The position of the first newline of `s`, if any.
pub open spec fn spec_first_nl(s: Seq<char>) -> Option<int>
    decreases s.len(),
{
    if s.len() == 0 {
        Option::None
    } else if s[0] == '\n' {
        Option::Some(0)
    } else {
        match spec_first_nl(s.drop_first()) {
            Option::None => Option::None,
            Option::Some(j) => Option::Some(j + 1),
        }
    }
}

/// `s` split at its newlines (the newlines removed).
pub open spec fn spec_split_lines(s: Seq<char>) -> Seq<Seq<char>>
    decreases s.len(),
{
    match spec_first_nl(s) {
        Option::None => seq![s],
        Option::Some(j) => if 0 <= j < s.len() {
            seq![s.take(j)] + spec_split_lines(s.skip(j + 1))
        } else {
            seq![s]
        },
    }
}

/// Whether the whole-tree renderer accepts a tree: only an element or an
/// alternation at the top.
pub open spec fn rt_ok(t: RegExView) -> bool {
    match t {
        RegExView::Element(v) => te_list_ok(v),
        RegExView::Alternation(v) => v.len() >= 1 && te_list_ok(v),
        _ => false,
    }
}

/// The output of the whole-tree renderer for the children of a top-level
/// element: the lines and spans after the first `k` children.
pub open spec fn spec_rt_fold(v: Seq<RegExView>, k: int) -> (Seq<Seq<char>>, Seq<
    (int, int, int),
>)
    decreases v, k,
{
    if k <= 0 || k > v.len() {
        (Seq::empty(), Seq::empty())
    } else {
        let prev = spec_rt_fold(v, k - 1);
        let c = v[k - 1];
        if c is Terminal {
            let m = spec_te(c, prev.0.len() as int + 1);
            (
                prev.0 + seq![seq!['E', 'X', 'A', 'C', 'T', 'L', 'Y', ':']] + seq![
                    seq![' ', ' ', ' ', ' '] + m.0,
                ],
                prev.1 + seq![(prev.0.len() as int, 0, 8)] + m.1,
            )
        } else {
            let m = spec_te(c, prev.0.len() as int);
            (prev.0 + spec_split_lines(m.0), prev.1 + m.1)
        }
    }
}

/// The lines and highlight spans of a whole tree.
pub open spec fn spec_render_text(t: RegExView) -> (Seq<Seq<char>>, Seq<(int, int, int)>) {
    match t {
        RegExView::Element(v) => spec_rt_fold(v, v.len() as int),
        RegExView::Alternation(v) => {
            let m = spec_te_alt(v, 0);
            (seq![m.0], m.1)
        },
        _ => (Seq::empty(), Seq::empty()),
    }
}

/// The views of recorded highlight spans.
pub open spec fn hs_view(h: Seq<(usize, usize, usize)>) -> Seq<(int, int, int)> {
    Seq::new(h.len(), |i: int| (h[i].0 as int, h[i].1 as int, h[i].2 as int))
}

/// The views of recorded lines.
pub open spec fn lines_view(h: Seq<String>) -> Seq<Seq<char>> {
    Seq::new(h.len(), |i: int| h[i]@)
}

/// Renders a parsed regular expression as natural-language lines.
#[derive(Default)]
pub struct TextRenderer {}

impl TextRenderer {
    /// A new text renderer.
    pub fn new() -> TextRenderer {
        TextRenderer {  }
    }

    /// The description of one class member, or a representation error
    /// for anything but literals and ranges of literals.
    fn render_character(character: &CharacterType) -> (r: Result<String, Error>)
        ensures
            r is Ok <==> text_rc_ok(char_type_view(*character)),
            r matches Ok(st) ==> st@ == spec_text_rc(char_type_view(*character)),
            r matches Err(e) ==> e == Error::InvalidParsing,
        decreases *character,
    {
        match character {
            CharacterType::Between(a, b) => {
                let ra = match Self::render_character(a) {
                    Ok(x) => x,
                    Err(e) => {
                        return Err(e);
                    },
                };
                let rb = match Self::render_character(b) {
                    Ok(x) => x,
                    Err(e) => {
                        return Err(e);
                    },
                };
                let mut st = String::new();
                push_char(&mut st, '[');
                append_str(&mut st, ra.as_str());
                push_char(&mut st, '-');
                append_str(&mut st, rb.as_str());
                push_char(&mut st, ']');
                proof {
                    assert(st@ =~= spec_text_rc(char_type_view(*character)));
                }
                Ok(st)
            },
            CharacterType::Terminal(c) => {
                let mut st = String::new();
                push_char(&mut st, *c);
                proof {
                    assert(st@ =~= spec_text_rc(char_type_view(*character)));
                }
                Ok(st)
            },
            _ => Err(Error::InvalidParsing),
        }
    }

    /// The repetition header and whether it is highlighted.
    fn rep_header(rt: &RepetitionType) -> (r: String)
        ensures
            r@ == spec_rep_header(*rt),
    {
        match rt {
            RepetitionType::ZeroOrOne => {
                let mut s = String::new();
                push_char(&mut s, '0');
                push_char(&mut s, ' ');
                push_char(&mut s, 'O');
                push_char(&mut s, 'R');
                push_char(&mut s, ' ');
                push_char(&mut s, '1');
                push_char(&mut s, ':');
                proof {
                    assert(s@ =~= spec_rep_header(*rt));
                }
                s
            },
            RepetitionType::OrMore(n) => {
                let mut s = decimal_string(*n);
                push_char(&mut s, ' ');
                push_char(&mut s, 'O');
                push_char(&mut s, 'R');
                push_char(&mut s, ' ');
                push_char(&mut s, 'M');
                push_char(&mut s, 'O');
                push_char(&mut s, 'R');
                push_char(&mut s, 'E');
                push_char(&mut s, ':');
                proof {
                    assert(s@ =~= spec_rep_header(*rt));
                }
                s
            },
            RepetitionType::Exactly(n) => {
                let mut s = String::new();
                push_char(&mut s, 'E');
                push_char(&mut s, 'X');
                push_char(&mut s, 'A');
                push_char(&mut s, 'C');
                push_char(&mut s, 'T');
                push_char(&mut s, 'L');
                push_char(&mut s, 'Y');
                push_char(&mut s, ' ');
                let d = decimal_string(*n);
                append_str(&mut s, d.as_str());
                push_char(&mut s, ':');
                proof {
                    assert(s@ =~= spec_rep_header(*rt));
                }
                s
            },
            RepetitionType::Between(n, m) => {
                let mut s = String::new();
                push_char(&mut s, 'B');
                push_char(&mut s, 'E');
                push_char(&mut s, 'T');
                push_char(&mut s, 'W');
                push_char(&mut s, 'E');
                push_char(&mut s, 'E');
                push_char(&mut s, 'N');
                push_char(&mut s, ' ');
                let d = decimal_string(*n);
                append_str(&mut s, d.as_str());
                push_char(&mut s, ' ');
                push_char(&mut s, 'A');
                push_char(&mut s, 'N');
                push_char(&mut s, 'D');
                push_char(&mut s, ' ');
                let d2 = decimal_string(*m);
                append_str(&mut s, d2.as_str());
                push_char(&mut s, ':');
                proof {
                    assert(s@ =~= spec_rep_header(*rt));
                }
                s
            },
        }
    }

    /// The description of one tree. The output lines are only read for
    /// their count; highlight spans are recorded in traversal order.
    #[verifier::loop_isolation(false)]
    #[verifier::rlimit(100)]
    fn render_text_element(
        tree: &RegEx,
        text: &mut Vec<String>,
        highlight: &mut Vec<(usize, usize, usize)>,
    ) -> (r: Result<String, Error>)
        ensures
            final(text)@ == old(text)@,
            r is Ok <==> te_ok(regex_view(*tree)),
            r matches Ok(msg) ==> msg@ == spec_te(regex_view(*tree), old(text)@.len() as int).0
                && hs_view(final(highlight)@) == hs_view(old(highlight)@) + spec_te(
                regex_view(*tree),
                old(text)@.len() as int,
            ).1,
            r matches Err(e) ==> e == Error::InvalidParsing,
        decreases *tree,
    {
        let ghost row = text@.len() as int;
        match tree {
            RegEx::Anchor(a) => match a {
                AnchorType::Start => {
                    let mut s = String::new();
                    push_char(&mut s, 'S');
                    push_char(&mut s, 't');
                    push_char(&mut s, 'a');
                    push_char(&mut s, 'r');
                    push_char(&mut s, 't');
                    proof {
                        assert(s@ =~= spec_te(regex_view(*tree), row).0);
                        assert(hs_view(highlight@) =~= hs_view(highlight@) + spec_te(
                            regex_view(*tree),
                            row,
                        ).1);
                    }
                    Ok(s)
                },
                AnchorType::End => {
                    let mut s = String::new();
                    push_char(&mut s, 'E');
                    push_char(&mut s, 'n');
                    push_char(&mut s, 'd');
                    proof {
                        assert(s@ =~= spec_te(regex_view(*tree), row).0);
                        assert(hs_view(highlight@) =~= hs_view(highlight@) + spec_te(
                            regex_view(*tree),
                            row,
                        ).1);
                    }
                    Ok(s)
                },
                _ => Err(Error::InvalidParsing),
            },
            RegEx::Element(a) => {
                let ghost views = regex_views(a@);
                proof {
                    lemma_regex_views_index(a@);
                }
                let mut msg = String::new();
                let mut i: usize = 0;
                while i < a.len()
                    invariant
                        i <= a@.len(),
                        text@ == old(text)@,
                        te_list_ok(views.take(i as int)),
                        msg@ == spec_te_cat(views.take(i as int), row).0,
                        hs_view(highlight@) == hs_view(old(highlight)@) + spec_te_cat(
                            views.take(i as int),
                            row,
                        ).1,
                    decreases a@.len() - i,
                {
                    let m = match Self::render_text_element(&a[i], text, highlight) {
                        Ok(x) => x,
                        Err(e) => {
                            proof {
                                lemma_te_list_ok_not(views, i as int);
                            }
                            return Err(e);
                        },
                    };
                    append_str(&mut msg, m.as_str());
                    proof {
                        assert(views.take((i + 1) as int).drop_last() =~= views.take(i as int));
                        assert(views.take((i + 1) as int).last() == views[i as int]);
                    }
                    i = i + 1;
                }
                proof {
                    assert(views.take(views.len() as int) =~= views);
                }
                Ok(msg)
            },
            RegEx::Repetition(t, a) => {
                let header = Self::rep_header(t);
                let highlighted: bool = match t {
                    RepetitionType::ZeroOrOne => false,
                    _ => true,
                };
                if highlighted {
                    let hl = header.as_str().unicode_len();
                    highlight.push((text.len(), 0, hl));
                }
                let inner = match Self::render_text_element(a, text, highlight) {
                    Ok(x) => x,
                    Err(e) => {
                        return Err(e);
                    },
                };
                let mut msg = header;
                push_char(&mut msg, '\n');
                push_char(&mut msg, ' ');
                push_char(&mut msg, ' ');
                push_char(&mut msg, ' ');
                push_char(&mut msg, ' ');
                append_str(&mut msg, inner.as_str());
                proof {
                    assert(msg@ =~= spec_te(regex_view(*tree), row).0);
                    if highlighted {
                        assert(hs_view(highlight@) =~= hs_view(old(highlight)@) + spec_te(
                            regex_view(*tree),
                            row,
                        ).1);
                    } else {
                        assert(hs_view(highlight@) =~= hs_view(old(highlight)@) + spec_te(
                            regex_view(*tree),
                            row,
                        ).1);
                    }
                }
                Ok(msg)
            },
            RegEx::Alternation(a) => {
                let ghost views = regex_views(a@);
                proof {
                    lemma_regex_views_index(a@);
                }
                if a.len() == 0 {
                    return Err(Error::InvalidParsing);
                }
                let first = match Self::render_text_element(&a[0], text, highlight) {
                    Ok(x) => x,
                    Err(e) => {
                        proof {
                            lemma_te_list_ok_not(views, 0);
                        }
                        return Err(e);
                    },
                };
                let mut msg = first;
                proof {
                    assert(views.take(1) =~= seq![views[0]]);
                    assert(seq![views[0]].drop_last() =~= Seq::<RegExView>::empty());
                    assert(views.take(1).last() == views[0]);
                    assert(views[0] == regex_view(*a@[0]));
                    assert(te_ok(views[0]));
                    reveal_with_fuel(te_list_ok, 3);
                    reveal_with_fuel(spec_te_alt, 2);
                    assert(te_list_ok(views.take(1)));
                    assert(spec_te_alt(views.take(1), row) == spec_te(views[0], row));
                    assert(msg@ == spec_te_alt(views.take(1), row).0);
                    assert(hs_view(highlight@) == hs_view(old(highlight)@) + spec_te_alt(
                        views.take(1),
                        row,
                    ).1);
                }
                let mut i: usize = 1;
                while i < a.len()
                    invariant
                        1 <= i <= a@.len(),
                        text@ == old(text)@,
                        te_list_ok(views.take(i as int)),
                        msg@ == spec_te_alt(views.take(i as int), row).0,
                        hs_view(highlight@) == hs_view(old(highlight)@) + spec_te_alt(
                            views.take(i as int),
                            row,
                        ).1,
                    decreases a@.len() - i,
                {
                    let m = match Self::render_text_element(&a[i], text, highlight) {
                        Ok(x) => x,
                        Err(e) => {
                            proof {
                                lemma_te_list_ok_not(views, i as int);
                            }
                            return Err(e);
                        },
                    };
                    push_char(&mut msg, ' ');
                    push_char(&mut msg, 'O');
                    push_char(&mut msg, 'R');
                    push_char(&mut msg, ' ');
                    append_str(&mut msg, m.as_str());
                    proof {
                        assert(views.take((i + 1) as int).drop_last() =~= views.take(i as int));
                        assert(views.take((i + 1) as int).last() == views[i as int]);
                        assert(msg@ =~= spec_te_alt(views.take((i + 1) as int), row).0);
                    }
                    i = i + 1;
                }
                proof {
                    assert(views.take(views.len() as int) =~= views);
                }
                Ok(msg)
            },
            RegEx::Character(a) => match a {
                CharacterType::Any(b) => {
                    let ghost cviews = char_type_views(b@);
                    proof {
                        lemma_char_type_views_index(b@);
                    }
                    let mut msg = String::new();
                    push_char(&mut msg, 'M');
                    push_char(&mut msg, 'A');
                    push_char(&mut msg, 'T');
                    push_char(&mut msg, 'C');
                    push_char(&mut msg, 'H');
                    push_char(&mut msg, ':');
                    push_char(&mut msg, '\n');
                    highlight.push((text.len(), 0, 7));
                    let ghost hl0 = highlight@;
                    let mut i: usize = 0;
                    while i < b.len()
                        invariant
                            i <= b@.len(),
                            text@ == old(text)@,
                            highlight@ == hl0,
                            text_rc_list_ok(cviews.take(i as int)),
                            msg@ == seq!['M', 'A', 'T', 'C', 'H', ':', '\n']
                                + spec_match_members(cviews.take(i as int)),
                        decreases b@.len() - i,
                    {
                        let m = match Self::render_character(&b[i]) {
                            Ok(x) => x,
                            Err(e) => {
                                proof {
                                    lemma_text_rc_list_ok_not(cviews, i as int);
                                }
                                return Err(e);
                            },
                        };
                        push_char(&mut msg, ' ');
                        append_str(&mut msg, m.as_str());
                        proof {
                            assert(cviews.take((i + 1) as int).drop_last() =~= cviews.take(
                                i as int,
                            ));
                            assert(cviews.take((i + 1) as int).last() == cviews[i as int]);
                            assert(msg@ =~= seq!['M', 'A', 'T', 'C', 'H', ':', '\n']
                                + spec_match_members(cviews.take((i + 1) as int)));
                        }
                        i = i + 1;
                    }
                    proof {
                        assert(cviews.take(cviews.len() as int) =~= cviews);
                        assert(hs_view(highlight@) =~= hs_view(old(highlight)@) + spec_te(
                            regex_view(*tree),
                            row,
                        ).1);
                    }
                    Ok(msg)
                },
                CharacterType::Not(b) => {
                    let ghost cviews = char_type_views(b@);
                    proof {
                        lemma_char_type_views_index(b@);
                    }
                    let mut msg = String::new();
                    push_char(&mut msg, 'D');
                    push_char(&mut msg, 'O');
                    push_char(&mut msg, 'N');
                    push_char(&mut msg, '\'');
                    push_char(&mut msg, 'T');
                    push_char(&mut msg, ' ');
                    push_char(&mut msg, 'M');
                    push_char(&mut msg, 'A');
                    push_char(&mut msg, 'T');
                    push_char(&mut msg, 'C');
                    push_char(&mut msg, 'H');
                    push_char(&mut msg, ':');
                    push_char(&mut msg, '\n');
                    highlight.push((text.len(), 0, 13));
                    let ghost hl0 = highlight@;
                    let mut i: usize = 0;
                    while i < b.len()
                        invariant
                            i <= b@.len(),
                            text@ == old(text)@,
                            highlight@ == hl0,
                            text_rc_list_ok(cviews.take(i as int)),
                            msg@ == seq![
                                'D',
                                'O',
                                'N',
                                '\'',
                                'T',
                                ' ',
                                'M',
                                'A',
                                'T',
                                'C',
                                'H',
                                ':',
                                '\n',
                            ] + spec_not_members(cviews.take(i as int)),
                        decreases b@.len() - i,
                    {
                        let m = match Self::render_character(&b[i]) {
                            Ok(x) => x,
                            Err(e) => {
                                proof {
                                    lemma_text_rc_list_ok_not(cviews, i as int);
                                }
                                return Err(e);
                            },
                        };
                        append_str(&mut msg, m.as_str());
                        proof {
                            assert(cviews.take((i + 1) as int).drop_last() =~= cviews.take(
                                i as int,
                            ));
                            assert(cviews.take((i + 1) as int).last() == cviews[i as int]);
                            assert(msg@ =~= seq![
                                'D',
                                'O',
                                'N',
                                '\'',
                                'T',
                                ' ',
                                'M',
                                'A',
                                'T',
                                'C',
                                'H',
                                ':',
                                '\n',
                            ] + spec_not_members(cviews.take((i + 1) as int)));
                        }
                        i = i + 1;
                    }
                    proof {
                        assert(cviews.take(cviews.len() as int) =~= cviews);
                        assert(hs_view(highlight@) =~= hs_view(old(highlight)@) + spec_te(
                            regex_view(*tree),
                            row,
                        ).1);
                    }
                    Ok(msg)
                },
                _ => Err(Error::InvalidParsing),
            },
            RegEx::Terminal(a) => {
                let mut msg = String::new();
                push_char(&mut msg, '\'');
                append_str(&mut msg, a.as_str());
                push_char(&mut msg, '\'');
                proof {
                    assert(msg@ =~= spec_te(regex_view(*tree), row).0);
                    assert(hs_view(highlight@) =~= hs_view(highlight@) + spec_te(
                        regex_view(*tree),
                        row,
                    ).1);
                }
                Ok(msg)
            },
            RegEx::Capture(_, _, _) => Err(Error::InvalidParsing),
        }
    }
}

/// A list that fails the text-renderer check at position `i` fails as a
/// whole.
pub proof fn lemma_te_list_ok_not(s: Seq<RegExView>, i: int)
    requires
        0 <= i < s.len(),
        !te_ok(s[i]),
    ensures
        !te_list_ok(s),
    decreases s,
{
    if s.len() > 0 {
        if i < s.len() - 1 {
            lemma_te_list_ok_not(s.drop_last(), i);
        } else {
            assert(s.last() == s[i]);
        }
    }
}

/// A member list that fails the check at position `i` fails as a whole.
pub proof fn lemma_text_rc_list_ok_not(s: Seq<CharacterTypeView>, i: int)
    requires
        0 <= i < s.len(),
        !text_rc_ok(s[i]),
    ensures
        !text_rc_list_ok(s),
    decreases s,
{
    if s.len() > 0 {
        if i < s.len() - 1 {
            lemma_text_rc_list_ok_not(s.drop_last(), i);
        } else {
            assert(s.last() == s[i]);
        }
    }
}

} // verus!

verus! {

/// The first newline of `t` stands at `k`, when the first `k` characters
/// hold none and `t[k]` is one (or `t` holds none at all when `k` is its
/// length).
proof fn lemma_first_nl_at(t: Seq<char>, k: int)
    requires
        0 <= k <= t.len(),
        forall|j: int| 0 <= j < k ==> t[j] != '\n',
        k < t.len() ==> t[k] == '\n',
    ensures
        spec_first_nl(t) == if k < t.len() {
            Option::Some(k)
        } else {
            Option::<int>::None
        },
    decreases k,
{
    if k == 0 {
    } else {
        assert(t[0] != '\n');
        lemma_first_nl_at(t.drop_first(), k - 1);
        assert(forall|j: int| 0 <= j < k - 1 ==> t.drop_first()[j] == t[j + 1]);
    }
}

/// Whether a tree is a literal run.
fn is_terminal(t: &RegEx) -> (r: bool)
    ensures
        r == (regex_view(*t) is Terminal),
{
    match t {
        RegEx::Terminal(_) => true,
        _ => false,
    }
}

/// `s` split at its newlines, the newlines removed.
#[verifier::loop_isolation(false)]
fn split_lines(s: &str) -> (r: Vec<String>)
    ensures
        lines_view(r@) == spec_split_lines(s@),
{
    let cv = chars_vec(s);
    let mut out: Vec<String> = Vec::new();
    let mut start: usize = 0;
    let mut done: bool = false;
    proof {
        assert(s@.skip(0) =~= s@);
        assert(lines_view(out@) =~= Seq::<Seq<char>>::empty());
        assert(spec_split_lines(s@) =~= lines_view(out@) + spec_split_lines(s@.skip(0)));
    }
    while !done
        invariant
            start <= cv@.len(),
            !done ==> spec_split_lines(s@) =~= lines_view(out@) + spec_split_lines(
                s@.skip(start as int),
            ),
            done ==> lines_view(out@) =~= spec_split_lines(s@),
        decreases cv@.len() - start + (if done {
            0int
        } else {
            1int
        }),
    {
        let mut i: usize = start;
        while i < cv.len() && cv[i] != '\n'
            invariant
                start <= i <= cv@.len(),
                forall|j: int| start <= j < i ==> cv@[j] != '\n',
            decreases cv@.len() - i,
        {
            i = i + 1;
        }
        let mut seg: Vec<char> = Vec::new();
        let mut k: usize = start;
        while k < i
            invariant
                start <= k <= i <= cv@.len(),
                seg@ == cv@.subrange(start as int, k as int),
            decreases i - k,
        {
            seg.push(cv[k]);
            proof {
                assert(seg@ =~= cv@.subrange(start as int, (k + 1) as int));
            }
            k = k + 1;
        }
        let ghost rest = s@.skip(start as int);
        let ghost pre_out = out@;
        out.push(string_of_chars(&seg));
        proof {
            assert(forall|j: int| 0 <= j < rest.len() ==> rest[j] == s@[start + j]);
            lemma_first_nl_at(rest, i as int - start as int);
            assert(seg@ =~= rest.take(i as int - start as int));
            assert(lines_view(out@) =~= lines_view(pre_out).push(seg@));
            if i < cv@.len() {
                assert(spec_split_lines(rest) == seq![rest.take(i as int - start as int)]
                    + spec_split_lines(rest.skip(i as int - start as int + 1)));
                assert(rest.skip(i as int - start as int + 1) =~= s@.skip(i as int + 1));
            } else {
                assert(rest.take(i as int - start as int) =~= rest);
                assert(spec_split_lines(rest) == seq![rest]);
            }
        }
        if i < cv.len() {
            proof {
                assert(spec_split_lines(s@) =~= lines_view(out@) + spec_split_lines(
                    s@.skip(i as int + 1),
                ));
            }
            start = i + 1;
        } else {
            proof {
                assert(lines_view(out@) =~= spec_split_lines(s@));
            }
            done = true;
        }
    }
    out
}

impl TextRenderer {
    /// The description lines of a whole tree, with the highlight spans
    /// marking its structural headers; a representation error for any
    /// tree that is not an element or an alternation at the top, or that
    /// holds a shape the text renderer rejects.
    #[verifier::loop_isolation(false)]
    #[verifier::rlimit(100)]
    pub fn render_text(tree: &RegEx) -> (r: Result<
        (Vec<String>, Vec<(usize, usize, usize)>),
        Error,
    >)
        ensures
            r is Ok <==> rt_ok(regex_view(*tree)),
            r matches Ok(p) ==> lines_view(p.0@) == spec_render_text(regex_view(*tree)).0
                && hs_view(p.1@) == spec_render_text(regex_view(*tree)).1,
            r matches Err(e) ==> e == Error::InvalidParsing,
    {
        let mut text: Vec<String> = Vec::new();
        let mut highlight: Vec<(usize, usize, usize)> = Vec::new();
        match tree {
            RegEx::Element(a) => {
                let ghost views = regex_views(a@);
                proof {
                    lemma_regex_views_index(a@);
                }
                let mut i: usize = 0;
                while i < a.len()
                    invariant
                        i <= a@.len(),
                        te_list_ok(views.take(i as int)),
                        lines_view(text@) == spec_rt_fold(views, i as int).0,
                        hs_view(highlight@) == spec_rt_fold(views, i as int).1,
                    decreases a@.len() - i,
                {
                    let ghost prev = spec_rt_fold(views, i as int);
                    let ghost tpre0 = text@;
                    let ghost hpre0 = highlight@;
                    if is_terminal(&a[i]) {
                        highlight.push((text.len(), 0, 8));
                        let mut hdr = String::new();
                        push_char(&mut hdr, 'E');
                        push_char(&mut hdr, 'X');
                        push_char(&mut hdr, 'A');
                        push_char(&mut hdr, 'C');
                        push_char(&mut hdr, 'T');
                        push_char(&mut hdr, 'L');
                        push_char(&mut hdr, 'Y');
                        push_char(&mut hdr, ':');
                        let ghost hdr2v = hdr@;
                        text.push(hdr);
                        let m = match Self::render_text_element(&a[i], &mut text, &mut highlight) {
                            Ok(x) => x,
                            Err(e) => {
                                proof {
                                    assert(false);
                                }
                                return Err(e);
                            },
                        };
                        let mut line = String::new();
                        push_char(&mut line, ' ');
                        push_char(&mut line, ' ');
                        push_char(&mut line, ' ');
                        push_char(&mut line, ' ');
                        append_str(&mut line, m.as_str());
                        text.push(line);
                        proof {
                            assert(views.take((i + 1) as int).drop_last() =~= views.take(
                                i as int,
                            ));
                            assert(views.take((i + 1) as int).last() == views[i as int]);
                            let ghost c = views[i as int];
                            let ghost m2 = spec_te(c, prev.0.len() as int + 1);
                            assert(hdr2v =~= seq!['E', 'X', 'A', 'C', 'T', 'L', 'Y', ':']);
                            assert(line@ =~= seq![' ', ' ', ' ', ' '] + m2.0);
                            assert(lines_view(text@) =~= lines_view(tpre0).push(hdr2v).push(
                                line@,
                            ));
                            assert(lines_view(text@) =~= prev.0 + seq![
                                seq!['E', 'X', 'A', 'C', 'T', 'L', 'Y', ':'],
                            ] + seq![seq![' ', ' ', ' ', ' '] + m2.0]);
                            assert(lines_view(text@) =~= spec_rt_fold(views, i as int + 1).0);
                            assert(hs_view(highlight@) =~= hs_view(hpre0).push(
                                (tpre0.len() as int, 0int, 8int),
                            ) + m2.1);
                            assert(hs_view(highlight@) =~= spec_rt_fold(views, i as int + 1).1);
                        }
                    } else {
                        let m = match Self::render_text_element(&a[i], &mut text, &mut highlight) {
                            Ok(x) => x,
                            Err(e) => {
                                proof {
                                    lemma_te_list_ok_not(views, i as int);
                                }
                                return Err(e);
                            },
                        };
                        let lines = split_lines(m.as_str());
                        let mut j: usize = 0;
                        let ghost tpre = text@;
                        while j < lines.len()
                            invariant
                                j <= lines@.len(),
                                text@.len() == tpre.len() + j,
                                forall|q: int| 0 <= q < tpre.len() ==> #[trigger] text@[q]
                                    == tpre[q],
                                forall|q: int|
                                    0 <= q < j ==> #[trigger] text@[tpre.len() + q]@
                                        == lines@[q]@,
                            decreases lines@.len() - j,
                        {
                            text.push(lines[j].clone());
                            j = j + 1;
                        }
                        proof {
                            assert(views.take((i + 1) as int).drop_last() =~= views.take(
                                i as int,
                            ));
                            assert(views.take((i + 1) as int).last() == views[i as int]);
                            assert(lines_view(lines@) == spec_split_lines(m@));
                            assert(forall|q: int|
                                0 <= q < lines@.len() ==> #[trigger] lines@[q]@
                                    == spec_split_lines(m@)[q]);
                            assert(lines_view(tpre) == prev.0);
                            assert(prev.0.len() == tpre.len());
                            assert(text@.len() == tpre.len() + lines@.len());
                            assert(forall|q: int|
                                0 <= q < tpre.len() ==> #[trigger] prev.0[q] == tpre[q]@);
                            assert forall|q: int|
                                tpre.len() <= q < text@.len() implies #[trigger] text@[q]@
                                == spec_split_lines(m@)[q - tpre.len()] by {
                                let q0 = q - tpre.len();
                                assert(text@[tpre.len() + q0]@ == lines@[q0]@);
                            }
                            assert(lines_view(text@) =~~= prev.0 + spec_split_lines(m@));
                            assert(lines_view(text@) =~~= spec_rt_fold(views, i as int + 1).0);
                            assert(hs_view(highlight@) =~= spec_rt_fold(views, i as int + 1).1);
                        }
                    }
                    i = i + 1;
                }
                proof {
                    assert(views.take(views.len() as int) =~= views);
                }
                Ok((text, highlight))
            },
            RegEx::Alternation(_) => {
                let m = match Self::render_text_element(tree, &mut text, &mut highlight) {
                    Ok(x) => x,
                    Err(e) => {
                        return Err(e);
                    },
                };
                text.push(m);
                proof {
                    assert(lines_view(text@) =~= seq![
                        spec_te_alt(
                            regex_view(*tree)->Alternation_0,
                            0,
                        ).0,
                    ]);
                    assert(hs_view(highlight@) =~= spec_te_alt(
                        regex_view(*tree)->Alternation_0,
                        0,
                    ).1);
                }
                Ok((text, highlight))
            },
            _ => Err(Error::InvalidParsing),
        }
    }
}

} // verus!
