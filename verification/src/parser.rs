//! The predictive recursive-descent parser from text to syntax tree.
//!
//! The executable parser keeps one monotonic cursor into the input and
//! looks ahead at most two characters. Its whole behaviour — the tree it
//! builds, the position it stops at, the capture indices it assigns and
//! the error it reports — is pinned down by the specification functions
//! in this module, which walk the same grammar over the input sequence.

use vstd::prelude::*;
use crate::ast::CharacterTypeView;
use crate::ast::MetaCharacter;
use crate::ast::AnchorType;
use crate::ast::RegExView;
use crate::ast::RepetitionType;
use crate::ast::RegEx;
use crate::ast::CharacterType;
use crate::ast::regex_view;
use crate::ast::regex_views;
use crate::ast::char_type_view;
use crate::ast::char_type_views;
use crate::ast::lemma_regex_views_push;
use crate::ast::ast_wf;
use crate::ast::ast_list_wf;
use crate::ast::lemma_char_type_views_push;
use crate::error::Error;
use crate::extract::Language;
use crate::strings::chars_vec;
use crate::strings::string_of_chars;
use crate::strings::push_char;

verus! {

/// The outcome of parsing one grammar production: a value together with
/// the cursor position and capture counter after it, or an error.
pub enum Parsed<T> {
    Good(T, int, int),
    Bad(Error),
}

/// The outcome of a scan that never touches the capture counter: a value
/// together with the cursor position after it, or an error.
pub enum Scanned<T> {
    SGood(T, int),
    SBad(Error),
}

/// The characters that end a literal run and are handled structurally.
pub open spec fn is_special(c: char) -> bool {
    c == '(' || c == ')' || c == '[' || c == ']' || c == '+' || c == '*' || c == '$' || c == '|'
        || c == '^' || c == '{' || c == '}'
}

/// Whether `c` is a decimal digit.
pub open spec fn is_digit(c: char) -> bool {
    '0' as u32 <= c as u32 && c as u32 <= '9' as u32
}

/// Whether `c` is a lowercase ASCII letter.
pub open spec fn is_lower(c: char) -> bool {
    'a' as u32 <= c as u32 && c as u32 <= 'z' as u32
}

/// Whether `c` is an uppercase ASCII letter.
pub open spec fn is_upper(c: char) -> bool {
    'A' as u32 <= c as u32 && c as u32 <= 'Z' as u32
}

/// The numeric value of a digit character.
pub open spec fn digit_val(c: char) -> int {
    c as u32 - '0' as u32
}

/// The meta character denoted by an escape letter, if any.
pub open spec fn meta_of(c: char) -> Option<MetaCharacter> {
    if c == 'w' {
        Option::Some(MetaCharacter::Word(true))
    } else if c == 'W' {
        Option::Some(MetaCharacter::Word(false))
    } else if c == 'd' {
        Option::Some(MetaCharacter::Digit(true))
    } else if c == 'D' {
        Option::Some(MetaCharacter::Digit(false))
    } else if c == 's' {
        Option::Some(MetaCharacter::Whitespace(true))
    } else if c == 'S' {
        Option::Some(MetaCharacter::Whitespace(false))
    } else {
        Option::None
    }
}

/// `alternation := element ('|' element)*`; a single element stays bare,
/// two or more become an `Alternation`.
pub open spec fn spec_alternation(s: Seq<char>, esc: Option<char>, i: int, cg: int) -> Parsed<
    RegExView,
>
    decreases s.len() - i, 9int,
{
    match spec_element(s, esc, i, cg, Seq::empty()) {
        Parsed::Good(e1, i1, cg1) => {
            if i <= i1 <= s.len() && i1 < s.len() && s[i1] == '|' {
                spec_alt_rest(s, esc, i1, cg1, seq![e1])
            } else {
                Parsed::Good(e1, i1, cg1)
            }
        },
        Parsed::Bad(e) => Parsed::Bad(e),
    }
}

/// The remaining `('|' element)*` branches of an alternation.
pub open spec fn spec_alt_rest(
    s: Seq<char>,
    esc: Option<char>,
    i: int,
    cg: int,
    acc: Seq<RegExView>,
) -> Parsed<RegExView>
    decreases s.len() - i, 8int,
{
    if 0 <= i < s.len() && s[i] == '|' {
        match spec_element(s, esc, i + 1, cg, Seq::empty()) {
            Parsed::Good(e, i2, cg2) => {
                if i < i2 <= s.len() {
                    spec_alt_rest(s, esc, i2, cg2, acc.push(e))
                } else {
                    Parsed::Bad(Error::InvalidParsing)
                }
            },
            Parsed::Bad(e) => Parsed::Bad(e),
        }
    } else {
        Parsed::Good(RegExView::Alternation(acc), i, cg)
    }
}

/// `element := repetition*`, stopping at `')'`, `'|'` or the end.
pub open spec fn spec_element(
    s: Seq<char>,
    esc: Option<char>,
    i: int,
    cg: int,
    acc: Seq<RegExView>,
) -> Parsed<RegExView>
    decreases s.len() - i, 7int,
{
    if 0 <= i < s.len() && s[i] != ')' && s[i] != '|' {
        match spec_repetition(s, esc, i, cg) {
            Parsed::Good(r, i2, cg2) => {
                if i < i2 <= s.len() {
                    spec_element(s, esc, i2, cg2, acc.push(r))
                } else {
                    Parsed::Bad(Error::InvalidParsing)
                }
            },
            Parsed::Bad(e) => Parsed::Bad(e),
        }
    } else {
        Parsed::Good(RegExView::Element(acc), i, cg)
    }
}

/// `repetition := group ('*'|'+'|'?'|'{'quantifier'}')?`.
pub open spec fn spec_repetition(s: Seq<char>, esc: Option<char>, i: int, cg: int) -> Parsed<
    RegExView,
>
    decreases s.len() - i, 6int,
{
    match spec_group(s, esc, i, cg) {
        Parsed::Good(b, i2, cg2) => {
            if i <= i2 <= s.len() && i2 < s.len() {
                if s[i2] == '*' {
                    Parsed::Good(
                        RegExView::Repetition(RepetitionType::OrMore(0), Box::new(b)),
                        i2 + 1,
                        cg2,
                    )
                } else if s[i2] == '+' {
                    Parsed::Good(
                        RegExView::Repetition(RepetitionType::OrMore(1), Box::new(b)),
                        i2 + 1,
                        cg2,
                    )
                } else if s[i2] == '?' {
                    Parsed::Good(
                        RegExView::Repetition(RepetitionType::ZeroOrOne, Box::new(b)),
                        i2 + 1,
                        cg2,
                    )
                } else if s[i2] == '{' {
                    match spec_rep_group(s, i2) {
                        Scanned::SGood(rt, i3) => Parsed::Good(
                            RegExView::Repetition(rt, Box::new(b)),
                            i3,
                            cg2,
                        ),
                        Scanned::SBad(e) => Parsed::Bad(e),
                    }
                } else {
                    Parsed::Good(b, i2, cg2)
                }
            } else {
                Parsed::Good(b, i2, cg2)
            }
        },
        Parsed::Bad(e) => Parsed::Bad(e),
    }
}

/// The quantifier `{...}`: digits, an optional comma, more digits.
pub open spec fn spec_rep_group(s: Seq<char>, i: int) -> Scanned<RepetitionType>
    decreases s.len() - i, 5int,
{
    if !(0 <= i < s.len()) {
        Scanned::SBad(Error::UnexpectedEnd)
    } else if s[i] != '{' {
        Scanned::SBad(Error::StringIterator('{', s[i]))
    } else {
        match spec_scan_min(s, i + 1, 0) {
            Scanned::SGood((min, two), i2) => {
                if two {
                    match spec_scan_max(s, i2, Option::None) {
                        Scanned::SGood(maxo, i3) => spec_rep_finish(s, i3, min, two, maxo),
                        Scanned::SBad(e) => Scanned::SBad(e),
                    }
                } else {
                    spec_rep_finish(s, i2, min, two, Option::None)
                }
            },
            Scanned::SBad(e) => Scanned::SBad(e),
        }
    }
}

/// The minimum count inside `{...}`: digits accumulated positionally up
/// to a `'}'`, a `','` or the end.
pub open spec fn spec_scan_min(s: Seq<char>, i: int, min: int) -> Scanned<(int, bool)>
    decreases s.len() - i, 4int,
{
    if !(0 <= i < s.len()) || s[i] == '}' {
        Scanned::SGood((min, false), i)
    } else if is_digit(s[i]) {
        if min * 10 + digit_val(s[i]) > u32::MAX {
            Scanned::SBad(Error::RepetitionValue(s[i]))
        } else {
            spec_scan_min(s, i + 1, min * 10 + digit_val(s[i]))
        }
    } else if s[i] == ',' {
        Scanned::SGood((min, true), i + 1)
    } else {
        Scanned::SBad(Error::RepetitionValue(s[i]))
    }
}

/// The maximum count inside `{...}` after the comma.
pub open spec fn spec_scan_max(s: Seq<char>, i: int, max: Option<int>) -> Scanned<Option<int>>
    decreases s.len() - i, 4int,
{
    if !(0 <= i < s.len()) || s[i] == '}' {
        Scanned::SGood(max, i)
    } else if is_digit(s[i]) {
        let m = match max {
            Option::Some(m0) => m0 * 10 + digit_val(s[i]),
            Option::None => digit_val(s[i]),
        };
        if m > u32::MAX {
            Scanned::SBad(Error::RepetitionValue(s[i]))
        } else {
            spec_scan_max(s, i + 1, Option::Some(m))
        }
    } else {
        Scanned::SBad(Error::RepetitionValue(s[i]))
    }
}

/// Closes a quantifier: a final `'}'` is consumed when present, and the
/// counts found decide the repetition type.
pub open spec fn spec_rep_finish(s: Seq<char>, i: int, min: int, two: bool, maxo: Option<
    int,
>) -> Scanned<RepetitionType> {
    let j = if 0 <= i < s.len() && s[i] == '}' {
        i + 1
    } else {
        i
    };
    match maxo {
        Option::Some(m) => Scanned::SGood(RepetitionType::Between(min as u32, m as u32), j),
        Option::None => {
            if two {
                Scanned::SGood(RepetitionType::OrMore(min as u32), j)
            } else {
                Scanned::SGood(RepetitionType::Exactly(min as u32), j)
            }
        },
    }
}

/// A capture-group name: characters up to the closing `'>'`.
pub open spec fn spec_scan_name(s: Seq<char>, i: int, acc: Seq<char>) -> Scanned<Seq<char>>
    decreases s.len() - i, 4int,
{
    if !(0 <= i < s.len()) {
        Scanned::SBad(Error::UnexpectedEnd)
    } else if s[i] == '>' {
        Scanned::SGood(acc, i + 1)
    } else {
        spec_scan_name(s, i + 1, acc.push(s[i]))
    }
}

/// A closing delimiter: consumed when present, an error otherwise.
pub open spec fn spec_close(s: Seq<char>, i: int, c: char) -> Scanned<()> {
    if !(0 <= i < s.len()) {
        Scanned::SBad(Error::UnexpectedEnd)
    } else if s[i] == c {
        Scanned::SGood((), i + 1)
    } else {
        Scanned::SBad(Error::StringIterator(c, s[i]))
    }
}

/// `group := '(' capture-prefix? alternation ')' | '[' class ']' |
/// '\' escape | '^' | '$' | '.' | literal-run`.
pub open spec fn spec_group(s: Seq<char>, esc: Option<char>, i: int, cg: int) -> Parsed<RegExView>
    decreases s.len() - i, 3int,
{
    if !(0 <= i < s.len()) {
        Parsed::Bad(Error::UnexpectedEnd)
    } else if s[i] == '(' {
        if !(i + 1 < s.len()) {
            Parsed::Bad(Error::UnexpectedEnd)
        } else if s[i + 1] == '?' {
            if !(i + 2 < s.len()) {
                Parsed::Bad(Error::UnexpectedEnd)
            } else if s[i + 2] == ':' {
                match spec_alternation(s, esc, i + 3, cg + 1) {
                    Parsed::Good(v, i4, cg4) => match spec_close(s, i4, ')') {
                        Scanned::SGood(_, i5) => Parsed::Good(
                            RegExView::Capture(Option::None, cg + 1, Box::new(v)),
                            i5,
                            cg4,
                        ),
                        Scanned::SBad(e) => Parsed::Bad(e),
                    },
                    Parsed::Bad(e) => Parsed::Bad(e),
                }
            } else if s[i + 2] == '<' {
                match spec_scan_name(s, i + 3, Seq::empty()) {
                    Scanned::SGood(name, i4) => {
                        if i < i4 <= s.len() {
                            match spec_alternation(s, esc, i4, cg + 1) {
                                Parsed::Good(v, i5, cg5) => match spec_close(s, i5, ')') {
                                    Scanned::SGood(_, i6) => Parsed::Good(
                                        RegExView::Capture(
                                            Option::Some(name),
                                            cg + 1,
                                            Box::new(v),
                                        ),
                                        i6,
                                        cg5,
                                    ),
                                    Scanned::SBad(e) => Parsed::Bad(e),
                                },
                                Parsed::Bad(e) => Parsed::Bad(e),
                            }
                        } else {
                            Parsed::Bad(Error::InvalidParsing)
                        }
                    },
                    Scanned::SBad(e) => Parsed::Bad(e),
                }
            } else {
                Parsed::Bad(Error::InvalidCharacter('?', (i + 2) as usize))
            }
        } else {
            match spec_alternation(s, esc, i + 1, cg) {
                Parsed::Good(v, i2, cg2) => match spec_close(s, i2, ')') {
                    Scanned::SGood(_, i3) => Parsed::Good(v, i3, cg2),
                    Scanned::SBad(e) => Parsed::Bad(e),
                },
                Parsed::Bad(e) => Parsed::Bad(e),
            }
        }
    } else if s[i] == '[' {
        match spec_character(s, i + 1) {
            Scanned::SGood(ctv, i2) => match spec_close(s, i2, ']') {
                Scanned::SGood(_, i3) => Parsed::Good(RegExView::Character(ctv), i3, cg),
                Scanned::SBad(e) => Parsed::Bad(e),
            },
            Scanned::SBad(e) => Parsed::Bad(e),
        }
    } else if s[i] == '\\' {
        if !(i + 1 < s.len()) {
            Parsed::Bad(Error::UnexpectedEnd)
        } else {
            match meta_of(s[i + 1]) {
                Option::Some(m) => Parsed::Good(
                    RegExView::Character(CharacterTypeView::Meta(m)),
                    i + 2,
                    cg,
                ),
                Option::None => Parsed::Good(RegExView::Terminal(seq![s[i + 1]]), i + 2, cg),
            }
        }
    } else if s[i] == '^' {
        Parsed::Good(RegExView::Anchor(AnchorType::Start), i + 1, cg)
    } else if s[i] == '$' {
        Parsed::Good(RegExView::Anchor(AnchorType::End), i + 1, cg)
    } else if s[i] == '.' {
        Parsed::Good(
            RegExView::Character(CharacterTypeView::Meta(MetaCharacter::Any)),
            i + 1,
            cg,
        )
    } else if s[i] == '}' || s[i] == ']' {
        Parsed::Bad(Error::InvalidCharacter(s[i], i as usize))
    } else {
        match spec_run(s, esc, i, Seq::empty()) {
            Scanned::SGood(text, i2) => Parsed::Good(RegExView::Terminal(text), i2, cg),
            Scanned::SBad(e) => Parsed::Bad(e),
        }
    }
}

/// A literal run: characters copied verbatim up to the next special
/// character, with the language's escape prefix stripped.
pub open spec fn spec_run(s: Seq<char>, esc: Option<char>, i: int, acc: Seq<char>) -> Scanned<
    Seq<char>,
>
    decreases s.len() - i, 0int,
{
    if 0 <= i < s.len() && !is_special(s[i]) {
        if esc matches Option::Some(e) && e == s[i] {
            if !(i + 1 < s.len()) {
                Scanned::SBad(Error::UnexpectedEnd)
            } else {
                spec_run(s, esc, i + 2, acc.push(s[i + 1]))
            }
        } else {
            spec_run(s, esc, i + 1, acc.push(s[i]))
        }
    } else {
        Scanned::SGood(acc, i)
    }
}

/// A character class after its `'['`: an optional leading `'^'` negating
/// the whole class, then its members.
pub open spec fn spec_character(s: Seq<char>, i: int) -> Scanned<CharacterTypeView>
    decreases s.len() - i, 3int,
{
    if 0 <= i < s.len() && s[i] == '^' {
        match spec_char_list(s, i + 1, Seq::empty()) {
            Scanned::SGood(items, i2) => Scanned::SGood(CharacterTypeView::Not(items), i2),
            Scanned::SBad(e) => Scanned::SBad(e),
        }
    } else {
        match spec_char_list(s, i, Seq::empty()) {
            Scanned::SGood(items, i2) => Scanned::SGood(CharacterTypeView::Any(items), i2),
            Scanned::SBad(e) => Scanned::SBad(e),
        }
    }
}

/// The members of a character class, up to `']'` or the end.
pub open spec fn spec_char_list(s: Seq<char>, i: int, acc: Seq<CharacterTypeView>) -> Scanned<
    Seq<CharacterTypeView>,
>
    decreases s.len() - i, 2int,
{
    if 0 <= i < s.len() && s[i] != ']' {
        match spec_next_character(s, i) {
            Scanned::SGood(c, i2) => {
                if i < i2 <= s.len() {
                    spec_char_list(s, i2, acc.push(c))
                } else {
                    Scanned::SBad(Error::InvalidParsing)
                }
            },
            Scanned::SBad(e) => Scanned::SBad(e),
        }
    } else {
        Scanned::SGood(acc, i)
    }
}

/// One member of a character class: a literal, a same-class range, or an
/// escape.
pub open spec fn spec_next_character(s: Seq<char>, i: int) -> Scanned<CharacterTypeView>
    decreases s.len() - i, 0int,
{
    if !(0 <= i < s.len()) {
        Scanned::SBad(Error::UnexpectedEnd)
    } else if is_digit(s[i]) || is_lower(s[i]) || is_upper(s[i]) {
        if i + 1 < s.len() && s[i + 1] == '-' {
            if !(i + 2 < s.len()) {
                Scanned::SBad(Error::UnexpectedEnd)
            } else if (is_digit(s[i]) && is_digit(s[i + 2])) || (is_lower(s[i]) && is_lower(
                s[i + 2],
            )) || (is_upper(s[i]) && is_upper(s[i + 2])) {
                spec_trail(
                    s,
                    i + 3,
                    CharacterTypeView::Between(
                        Box::new(CharacterTypeView::Terminal(s[i])),
                        Box::new(CharacterTypeView::Terminal(s[i + 2])),
                    ),
                )
            } else {
                Scanned::SBad(Error::CharacterRange(s[i], s[i + 2]))
            }
        } else {
            spec_trail(s, i + 1, CharacterTypeView::Terminal(s[i]))
        }
    } else if s[i] == '\\' {
        if !(i + 1 < s.len()) {
            Scanned::SBad(Error::UnexpectedEnd)
        } else {
            match meta_of(s[i + 1]) {
                Option::Some(m) => spec_trail(s, i + 2, CharacterTypeView::Meta(m)),
                Option::None => spec_trail(s, i + 1, CharacterTypeView::Terminal('\\')),
            }
        }
    } else {
        spec_trail(s, i + 1, CharacterTypeView::Terminal(s[i]))
    }
}

/// The optional chained-range tail after a parsed member: a `'-'` not
/// directly followed by `']'` chains the member with the next one.
pub open spec fn spec_trail(s: Seq<char>, i: int, c: CharacterTypeView) -> Scanned<
    CharacterTypeView,
>
    decreases s.len() - i, 1int,
{
    if 0 <= i < s.len() && s[i] == '-' {
        if i + 1 < s.len() && s[i + 1] == ']' {
            Scanned::SGood(c, i)
        } else {
            match spec_next_character(s, i) {
                Scanned::SGood(c2, i2) => Scanned::SGood(
                    CharacterTypeView::Between(Box::new(c), Box::new(c2)),
                    i2,
                ),
                Scanned::SBad(e) => Scanned::SBad(e),
            }
        }
    } else {
        Scanned::SGood(c, i)
    }
}

/// The escape character the parser strips inside literal runs, by
/// language; a language with no known string format strips none.
pub open spec fn spec_escape_of(l: Language) -> Option<char> {
    match l {
        Language::Python => Option::Some('\\'),
        Language::Rust => Option::Some('\\'),
        Language::Javascript => Option::Some('\\'),
        _ => Option::None,
    }
}

/// The parse of a whole input: the top-level alternation, starting at the
/// first character with no capture group yet assigned.
pub open spec fn spec_parse(s: Seq<char>, esc: Option<char>) -> Parsed<RegExView> {
    spec_alternation(s, esc, 0, 0)
}

} // verus!

verus! {

/// Whether `c` ends a literal run.
pub fn is_special_char(c: char) -> (r: bool)
    ensures
        r == is_special(c),
{
    c == '(' || c == ')' || c == '[' || c == ']' || c == '+' || c == '*' || c == '$' || c == '|'
        || c == '^' || c == '{' || c == '}'
}

/// The single-pass predictive parser: the input characters, one monotonic
/// cursor, and the running capture-group counter.
pub struct RegExParser {
    pub language: Language,
    pub text: Vec<char>,
    pub idx: usize,
    pub capture_group: usize,
    pub escape: Option<char>,
}

impl RegExParser {
    /// The cursor never passes the end, and capture indices stay below it.
    pub open spec fn wf(self) -> bool {
        &&& self.idx <= self.text@.len()
        &&& self.capture_group <= self.idx
    }

    /// Parsing only moves the cursor and the capture counter.
    pub open spec fn same_input(self, other: RegExParser) -> bool {
        &&& self.text == other.text
        &&& self.language == other.language
        &&& self.escape == other.escape
    }
}

/// How one parsing step relates the parser states, the returned tree and
/// the specification outcome.
pub open spec fn parse_step(
    pre: RegExParser,
    post: RegExParser,
    r: Result<RegEx, Error>,
    out: Parsed<RegExView>,
) -> bool {
    &&& post.same_input(pre)
    &&& post.wf()
    &&& pre.idx <= post.idx
    &&& match out {
        Parsed::Good(v, ni, ncg) => r matches Ok(x) && regex_view(x) == v && post.idx == ni
            && post.capture_group == ncg,
        Parsed::Bad(e) => r matches Err(x) && x == e,
    }
}

impl RegExParser {
    /// A new parser over `text`, with the cursor at the first character
    /// and no capture group assigned yet.
    pub fn new(language: Language, text: &String) -> (p: RegExParser)
        ensures
            p.text@ == text@,
            p.idx == 0,
            p.capture_group == 0,
            p.language == language,
            p.escape == spec_escape_of(language),
            p.wf(),
    {
        let escape: Option<char> = match &language {
            Language::Python | Language::Rust | Language::Javascript => Some('\\'),
            _ => None,
        };
        RegExParser { language, text: chars_vec(text.as_str()), idx: 0, capture_group: 0, escape }
    }

    /// Parses the whole input as one alternation.
    pub fn parse(&mut self) -> (r: Result<RegEx, Error>)
        requires
            old(self).wf(),
        ensures
            parse_step(
                *old(self),
                *final(self),
                r,
                spec_alternation(
                    old(self).text@,
                    old(self).escape,
                    old(self).idx as int,
                    old(self).capture_group as int,
                ),
            ),
    {
        self.alternation()
    }

    /// Whether any input is left at the cursor.
    fn more(&self) -> (r: bool)
        ensures
            r == (self.idx < self.text@.len()),
            self.text@.len() <= usize::MAX,
    {
        self.text.len() > self.idx
    }

    /// The character at the cursor.
    fn peek(&self) -> (r: char)
        requires
            self.idx < self.text@.len(),
        ensures
            r == self.text@[self.idx as int],
    {
        self.text[self.idx]
    }

    /// The character `n` places past the cursor, if the input reaches it.
    fn peek_n(&self, n: usize) -> (r: Option<char>)
        requires
            self.idx + n <= usize::MAX,
        ensures
            self.idx + n < self.text@.len() ==> r == Option::Some(
                self.text@[self.idx + n],
            ),
            !(self.idx + n < self.text@.len()) ==> r is None,
    {
        if self.idx + n < self.text.len() {
            Some(self.text[self.idx + n])
        } else {
            None
        }
    }

    /// Consumes `c` at the cursor, or reports what stood there instead.
    fn consume(&mut self, c: char) -> (r: Result<(), Error>)
        requires
            old(self).wf(),
            old(self).idx < old(self).text@.len(),
        ensures
            final(self).same_input(*old(self)),
            final(self).wf(),
            final(self).capture_group == old(self).capture_group,
            old(self).text@[old(self).idx as int] == c ==> r is Ok && final(self).idx == old(self).idx
                + 1,
            old(self).text@[old(self).idx as int] != c ==> (r matches Err(e) && e
                == Error::StringIterator(c, old(self).text@[old(self).idx as int])
                && final(self).idx == old(self).idx),
    {
        let n = self.text.len();
        let p = self.peek();
        if p == c {
            self.idx = self.idx + 1;
            Ok(())
        } else {
            Err(Error::StringIterator(c, p))
        }
    }

    /// Consumes and returns the character at the cursor.
    fn next(&mut self) -> (r: Result<char, Error>)
        requires
            old(self).wf(),
            old(self).idx < old(self).text@.len(),
        ensures
            final(self).same_input(*old(self)),
            final(self).wf(),
            final(self).capture_group == old(self).capture_group,
            r matches Ok(c) && c == old(self).text@[old(self).idx as int],
            final(self).idx == old(self).idx + 1,
    {
        let c = self.peek();
        match self.consume(c) {
            Ok(_) => Ok(c),
            Err(e) => Err(e),
        }
    }
}

} // verus!

verus! {

impl RegExParser {
    /// `alternation := element ('|' element)*`.
    #[verifier::loop_isolation(false)]
    fn alternation(&mut self) -> (r: Result<RegEx, Error>)
        requires
            old(self).wf(),
        ensures
            parse_step(
                *old(self),
                *final(self),
                r,
                spec_alternation(
                    old(self).text@,
                    old(self).escape,
                    old(self).idx as int,
                    old(self).capture_group as int,
                ),
            ),
        decreases self.text@.len() - self.idx, 9int,
    {
        let ghost pre = *self;
        let ghost s = self.text@;
        let ghost esc = self.escape;
        let e1 = match self.element() {
            Ok(x) => x,
            Err(e) => {
                return Err(e);
            },
        };
        let mut has_more: bool = false;
        if self.more() {
            if self.peek() == '|' {
                has_more = true;
            }
        }
        if !has_more {
            return Ok(e1);
        }
        let ghost e1v = regex_view(e1);
        let mut v: Vec<Box<RegEx>> = Vec::new();
        v.push(Box::new(e1));
        proof {
            reveal_with_fuel(regex_views, 3);
            assert(v@.drop_last() =~= Seq::<Box<RegEx>>::empty());
            assert(regex_views(v@) =~= seq![e1v]);
        }
        while self.more() && self.peek() == '|'
            invariant
                pre == *old(self),
                self.wf(),
                self.same_input(pre),
                s == self.text@,
                esc == self.escape,
                pre.idx <= self.idx,
                spec_alternation(s, esc, pre.idx as int, pre.capture_group as int)
                    == spec_alt_rest(
                    s,
                    esc,
                    self.idx as int,
                    self.capture_group as int,
                    regex_views(v@),
                ),
            decreases s.len() - self.idx,
        {
            match self.consume('|') {
                Ok(_) => (),
                Err(e) => {
                    return Err(e);
                },
            }
            let el = match self.element() {
                Ok(x) => x,
                Err(e) => {
                    return Err(e);
                },
            };
            let ghost vs_before = v@;
            v.push(Box::new(el));
            proof {
                assert(v@ =~= vs_before.push(v@.last()));
                lemma_regex_views_push(vs_before, v@.last());
            }
        }
        Ok(RegEx::Alternation(v))
    }

    /// `element := repetition*`, stopping at `')'`, `'|'` or the end.
    #[verifier::loop_isolation(false)]
    fn element(&mut self) -> (r: Result<RegEx, Error>)
        requires
            old(self).wf(),
        ensures
            parse_step(
                *old(self),
                *final(self),
                r,
                spec_element(
                    old(self).text@,
                    old(self).escape,
                    old(self).idx as int,
                    old(self).capture_group as int,
                    Seq::empty(),
                ),
            ),
        decreases self.text@.len() - self.idx, 7int,
    {
        let ghost pre = *self;
        let ghost s = self.text@;
        let ghost esc = self.escape;
        let mut v: Vec<Box<RegEx>> = Vec::new();
        proof {
            assert(regex_views(v@) =~= Seq::<RegExView>::empty());
        }
        while self.more() && self.peek() != ')' && self.peek() != '|'
            invariant
                pre == *old(self),
                self.wf(),
                self.same_input(pre),
                s == self.text@,
                esc == self.escape,
                pre.idx <= self.idx,
                spec_element(s, esc, pre.idx as int, pre.capture_group as int, Seq::empty())
                    == spec_element(
                    s,
                    esc,
                    self.idx as int,
                    self.capture_group as int,
                    regex_views(v@),
                ),
            decreases s.len() - self.idx,
        {
            let x = match self.repetition() {
                Ok(x) => x,
                Err(e) => {
                    return Err(e);
                },
            };
            let ghost vs_before = v@;
            v.push(Box::new(x));
            proof {
                assert(v@ =~= vs_before.push(v@.last()));
                lemma_regex_views_push(vs_before, v@.last());
            }
        }
        Ok(RegEx::Element(v))
    }

    /// `repetition := group ('*'|'+'|'?'|'{'quantifier'}')?`.
    #[verifier::rlimit(60)]
    fn repetition(&mut self) -> (r: Result<RegEx, Error>)
        requires
            old(self).wf(),
        ensures
            parse_step(
                *old(self),
                *final(self),
                r,
                spec_repetition(
                    old(self).text@,
                    old(self).escape,
                    old(self).idx as int,
                    old(self).capture_group as int,
                ),
            ),
            r is Ok ==> final(self).idx > old(self).idx || (final(self).idx == old(self).idx
                && old(self).idx < old(self).text@.len() && (old(self).text@[old(self).idx as int]
                == ')' || old(self).text@[old(self).idx as int] == '|')),
        decreases self.text@.len() - self.idx, 6int,
    {
        let ghost pre = *self;
        let b = match self.group() {
            Ok(x) => x,
            Err(e) => {
                return Err(e);
            },
        };
        if self.more() {
            let c = self.peek();
            if c == '*' {
                match self.consume('*') {
                    Ok(_) => (),
                    Err(e) => {
                        return Err(e);
                    },
                }
                Ok(RegEx::Repetition(RepetitionType::OrMore(0), Box::new(b)))
            } else if c == '+' {
                match self.consume('+') {
                    Ok(_) => (),
                    Err(e) => {
                        return Err(e);
                    },
                }
                Ok(RegEx::Repetition(RepetitionType::OrMore(1), Box::new(b)))
            } else if c == '?' {
                match self.consume('?') {
                    Ok(_) => (),
                    Err(e) => {
                        return Err(e);
                    },
                }
                Ok(RegEx::Repetition(RepetitionType::ZeroOrOne, Box::new(b)))
            } else if c == '{' {
                match self.repetition_group() {
                    Ok(rt) => Ok(RegEx::Repetition(rt, Box::new(b))),
                    Err(e) => Err(e),
                }
            } else {
                Ok(b)
            }
        } else {
            Ok(b)
        }
    }

    /// Reads the quantifier `{...}` and decides the repetition type.
    #[verifier::loop_isolation(false)]
    fn repetition_group(&mut self) -> (r: Result<RepetitionType, Error>)
        requires
            old(self).wf(),
        ensures
            final(self).same_input(*old(self)),
            final(self).wf(),
            final(self).capture_group == old(self).capture_group,
            old(self).idx <= final(self).idx,
            match spec_rep_group(old(self).text@, old(self).idx as int) {
                Scanned::SGood(rt, ni) => r matches Ok(x) && x == rt && final(self).idx == ni,
                Scanned::SBad(e) => r matches Err(x) && x == e,
            },
            r is Ok ==> final(self).idx > old(self).idx,
        decreases self.text@.len() - self.idx, 5int,
    {
        let ghost pre = *self;
        let ghost s = self.text@;
        if !self.more() {
            return Err(Error::UnexpectedEnd);
        }
        match self.consume('{') {
            Ok(_) => (),
            Err(e) => {
                return Err(e);
            },
        }
        let ghost istart = self.idx as int;
        let mut min_count: u32 = 0;
        let mut two_num: bool = false;
        let mut broke: bool = false;
        while !broke && self.more() && self.peek() != '}'
            invariant
                pre == *old(self),
                self.wf(),
                self.same_input(pre),
                s == self.text@,
                self.capture_group == pre.capture_group,
                istart <= self.idx as int,
                pre.idx < self.idx,
                spec_scan_min(s, istart, 0) == (if broke {
                    Scanned::SGood((min_count as int, true), self.idx as int)
                } else {
                    spec_scan_min(s, self.idx as int, min_count as int)
                }),
                broke ==> two_num,
                !broke ==> !two_num,
            decreases s.len() - self.idx,
        {
            let c = self.peek();
            let cu = c as u32;
            if '0' as u32 <= cu && cu <= '9' as u32 {
                let d: u32 = cu - '0' as u32;
                let t: u64 = (min_count as u64) * 10 + (d as u64);
                if t > (u32::MAX as u64) {
                    return Err(Error::RepetitionValue(c));
                }
                match self.consume(c) {
                    Ok(_) => (),
                    Err(e) => {
                        return Err(e);
                    },
                }
                min_count = t as u32;
            } else if c == ',' {
                match self.consume(',') {
                    Ok(_) => (),
                    Err(e) => {
                        return Err(e);
                    },
                }
                two_num = true;
                broke = true;
            } else {
                return Err(Error::RepetitionValue(c));
            }
        }
        let ghost imid = self.idx as int;
        let mut max_count: Option<u32> = None;
        if two_num {
            while self.more() && self.peek() != '}'
                invariant
                    pre == *old(self),
                    self.wf(),
                    self.same_input(pre),
                    s == self.text@,
                    self.capture_group == pre.capture_group,
                    imid <= self.idx as int,
                    pre.idx < self.idx,
                    spec_scan_max(s, imid, Option::None) == spec_scan_max(
                        s,
                        self.idx as int,
                        match max_count {
                            Option::Some(m) => Option::Some(m as int),
                            Option::None => Option::None,
                        },
                    ),
                decreases s.len() - self.idx,
            {
                let c = self.peek();
                let cu = c as u32;
                if '0' as u32 <= cu && cu <= '9' as u32 {
                    let d: u32 = cu - '0' as u32;
                    let t: u64 = match max_count {
                        Some(m) => (m as u64) * 10 + (d as u64),
                        None => d as u64,
                    };
                    if t > (u32::MAX as u64) {
                        return Err(Error::RepetitionValue(c));
                    }
                    match self.consume(c) {
                        Ok(_) => (),
                        Err(e) => {
                            return Err(e);
                        },
                    }
                    max_count = Some(t as u32);
                } else {
                    return Err(Error::RepetitionValue(c));
                }
            }
        }
        if self.more() {
            if self.peek() == '}' {
                match self.consume('}') {
                    Ok(_) => (),
                    Err(e) => {
                        return Err(e);
                    },
                }
            }
        }
        match max_count {
            Some(m) => Ok(RepetitionType::Between(min_count, m)),
            None => {
                if two_num {
                    Ok(RepetitionType::OrMore(min_count))
                } else {
                    Ok(RepetitionType::Exactly(min_count))
                }
            },
        }
    }
}

} // verus!

verus! {

impl RegExParser {
    /// `group := '(' capture-prefix? alternation ')' | '[' class ']' |
    /// '\' escape | '^' | '$' | '.' | literal-run`.
    #[verifier::loop_isolation(false)]
    #[verifier::rlimit(100)]
    fn group(&mut self) -> (r: Result<RegEx, Error>)
        requires
            old(self).wf(),
        ensures
            parse_step(
                *old(self),
                *final(self),
                r,
                spec_group(
                    old(self).text@,
                    old(self).escape,
                    old(self).idx as int,
                    old(self).capture_group as int,
                ),
            ),
            r is Ok ==> final(self).idx > old(self).idx || (final(self).idx == old(self).idx
                && old(self).idx < old(self).text@.len() && (old(self).text@[old(self).idx as int]
                == '+' || old(self).text@[old(self).idx as int] == '*'
                || old(self).text@[old(self).idx as int] == '{'
                || old(self).text@[old(self).idx as int] == ')'
                || old(self).text@[old(self).idx as int] == '|')),
        decreases self.text@.len() - self.idx, 3int,
    {
        let ghost pre = *self;
        let ghost s = self.text@;
        let ghost esc = self.escape;
        if !self.more() {
            return Err(Error::UnexpectedEnd);
        }
        let c0 = self.peek();
        if c0 == '(' {
            match self.consume('(') {
                Ok(_) => (),
                Err(e) => {
                    return Err(e);
                },
            }
            if !self.more() {
                return Err(Error::UnexpectedEnd);
            }
            let c1 = self.peek();
            if c1 == '?' {
                match self.consume('?') {
                    Ok(_) => (),
                    Err(e) => {
                        return Err(e);
                    },
                }
                if !self.more() {
                    return Err(Error::UnexpectedEnd);
                }
                let c2 = self.peek();
                if c2 == ':' {
                    match self.consume(':') {
                        Ok(_) => (),
                        Err(e) => {
                            return Err(e);
                        },
                    }
                    self.capture_group = self.capture_group + 1;
                    let gi = self.capture_group;
                    let inner = match self.alternation() {
                        Ok(x) => x,
                        Err(e) => {
                            return Err(e);
                        },
                    };
                    if !self.more() {
                        return Err(Error::UnexpectedEnd);
                    }
                    match self.consume(')') {
                        Ok(_) => (),
                        Err(e) => {
                            return Err(e);
                        },
                    }
                    Ok(RegEx::Capture(None, gi, Box::new(inner)))
                } else if c2 == '<' {
                    match self.consume('<') {
                        Ok(_) => (),
                        Err(e) => {
                            return Err(e);
                        },
                    }
                    let ghost iname = self.idx as int;
                    let mut name_chars: Vec<char> = Vec::new();
                    while self.more() && self.peek() != '>'
                        invariant
                            self.wf(),
                            self.same_input(pre),
                            s == self.text@,
                            self.capture_group == pre.capture_group,
                            pre.idx < self.idx,
                            iname <= self.idx as int,
                            spec_scan_name(s, iname, Seq::empty()) == spec_scan_name(
                                s,
                                self.idx as int,
                                name_chars@,
                            ),
                        decreases s.len() - self.idx,
                    {
                        let ch = match self.next() {
                            Ok(ch) => ch,
                            Err(e) => {
                                return Err(e);
                            },
                        };
                        name_chars.push(ch);
                    }
                    if !self.more() {
                        return Err(Error::UnexpectedEnd);
                    }
                    match self.consume('>') {
                        Ok(_) => (),
                        Err(e) => {
                            return Err(e);
                        },
                    }
                    self.capture_group = self.capture_group + 1;
                    let gi = self.capture_group;
                    let inner = match self.alternation() {
                        Ok(x) => x,
                        Err(e) => {
                            return Err(e);
                        },
                    };
                    if !self.more() {
                        return Err(Error::UnexpectedEnd);
                    }
                    match self.consume(')') {
                        Ok(_) => (),
                        Err(e) => {
                            return Err(e);
                        },
                    }
                    let name = string_of_chars(&name_chars);
                    Ok(RegEx::Capture(Some(name), gi, Box::new(inner)))
                } else {
                    Err(Error::InvalidCharacter('?', self.idx))
                }
            } else {
                let inner = match self.alternation() {
                    Ok(x) => x,
                    Err(e) => {
                        return Err(e);
                    },
                };
                if !self.more() {
                    return Err(Error::UnexpectedEnd);
                }
                match self.consume(')') {
                    Ok(_) => (),
                    Err(e) => {
                        return Err(e);
                    },
                }
                Ok(inner)
            }
        } else if c0 == '[' {
            match self.consume('[') {
                Ok(_) => (),
                Err(e) => {
                    return Err(e);
                },
            }
            let ct = match self.character() {
                Ok(x) => x,
                Err(e) => {
                    return Err(e);
                },
            };
            if !self.more() {
                return Err(Error::UnexpectedEnd);
            }
            match self.consume(']') {
                Ok(_) => (),
                Err(e) => {
                    return Err(e);
                },
            }
            Ok(RegEx::Character(ct))
        } else if c0 == '\\' {
            match self.consume('\\') {
                Ok(_) => (),
                Err(e) => {
                    return Err(e);
                },
            }
            if !self.more() {
                return Err(Error::UnexpectedEnd);
            }
            let c1 = match self.next() {
                Ok(x) => x,
                Err(e) => {
                    return Err(e);
                },
            };
            match c1 {
                'w' => Ok(RegEx::Character(CharacterType::Meta(MetaCharacter::Word(true)))),
                'W' => Ok(RegEx::Character(CharacterType::Meta(MetaCharacter::Word(false)))),
                'd' => Ok(RegEx::Character(CharacterType::Meta(MetaCharacter::Digit(true)))),
                'D' => Ok(RegEx::Character(CharacterType::Meta(MetaCharacter::Digit(false)))),
                's' => Ok(
                    RegEx::Character(CharacterType::Meta(MetaCharacter::Whitespace(true))),
                ),
                'S' => Ok(
                    RegEx::Character(CharacterType::Meta(MetaCharacter::Whitespace(false))),
                ),
                _ => {
                    let mut st = String::new();
                    push_char(&mut st, c1);
                    proof {
                        assert(st@ =~= seq![c1]);
                    }
                    Ok(RegEx::Terminal(st))
                },
            }
        } else if c0 == '^' {
            match self.consume('^') {
                Ok(_) => (),
                Err(e) => {
                    return Err(e);
                },
            }
            Ok(RegEx::Anchor(AnchorType::Start))
        } else if c0 == '$' {
            match self.consume('$') {
                Ok(_) => (),
                Err(e) => {
                    return Err(e);
                },
            }
            Ok(RegEx::Anchor(AnchorType::End))
        } else if c0 == '.' {
            match self.consume('.') {
                Ok(_) => (),
                Err(e) => {
                    return Err(e);
                },
            }
            Ok(RegEx::Character(CharacterType::Meta(MetaCharacter::Any)))
        } else if c0 == '}' || c0 == ']' {
            Err(Error::InvalidCharacter(c0, self.idx))
        } else {
            let mut run: Vec<char> = Vec::new();
            while self.more() && !is_special_char(self.peek())
                invariant
                    pre == *old(self),
                    self.wf(),
                    self.same_input(pre),
                    s == self.text@,
                    esc == self.escape,
                    self.capture_group == pre.capture_group,
                    pre.idx <= self.idx,
                    spec_run(s, esc, pre.idx as int, Seq::empty()) == spec_run(
                        s,
                        esc,
                        self.idx as int,
                        run@,
                    ),
                decreases s.len() - self.idx,
            {
                let ch = self.peek();
                let mut escaped: bool = false;
                if let Some(esc_c) = self.escape {
                    if ch == esc_c {
                        escaped = true;
                    }
                }
                if escaped {
                    match self.consume(ch) {
                        Ok(_) => (),
                        Err(e) => {
                            return Err(e);
                        },
                    }
                    if !self.more() {
                        return Err(Error::UnexpectedEnd);
                    }
                    let ch2 = match self.next() {
                        Ok(x) => x,
                        Err(e) => {
                            return Err(e);
                        },
                    };
                    run.push(ch2);
                } else {
                    match self.consume(ch) {
                        Ok(_) => (),
                        Err(e) => {
                            return Err(e);
                        },
                    }
                    run.push(ch);
                }
            }
            Ok(RegEx::Terminal(string_of_chars(&run)))
        }
    }

    /// A character class after its `'['`: optional leading `'^'`, then
    /// the members up to `']'`.
    #[verifier::loop_isolation(false)]
    fn character(&mut self) -> (r: Result<CharacterType, Error>)
        requires
            old(self).wf(),
        ensures
            final(self).same_input(*old(self)),
            final(self).wf(),
            final(self).capture_group == old(self).capture_group,
            old(self).idx <= final(self).idx,
            match spec_character(old(self).text@, old(self).idx as int) {
                Scanned::SGood(cv, ni) => r matches Ok(x) && char_type_view(x) == cv
                    && final(self).idx == ni,
                Scanned::SBad(e) => r matches Err(x) && x == e,
            },
        decreases self.text@.len() - self.idx, 3int,
    {
        let ghost pre = *self;
        let ghost s = self.text@;
        let mut match_char: bool = true;
        if self.more() {
            if self.peek() == '^' {
                match self.consume('^') {
                    Ok(_) => (),
                    Err(e) => {
                        return Err(e);
                    },
                }
                match_char = false;
            }
        }
        let ghost j0 = self.idx as int;
        let mut v: Vec<Box<CharacterType>> = Vec::new();
        proof {
            assert(char_type_views(v@) =~= Seq::<CharacterTypeView>::empty());
        }
        while self.more() && self.peek() != ']'
            invariant
                pre == *old(self),
                self.wf(),
                self.same_input(pre),
                s == self.text@,
                self.capture_group == pre.capture_group,
                pre.idx <= j0 <= self.idx as int,
                spec_char_list(s, j0, Seq::empty()) == spec_char_list(
                    s,
                    self.idx as int,
                    char_type_views(v@),
                ),
            decreases s.len() - self.idx,
        {
            let c = match self.next_character() {
                Ok(c) => c,
                Err(e) => {
                    return Err(e);
                },
            };
            let ghost vs_before = v@;
            v.push(c);
            proof {
                assert(v@ =~= vs_before.push(v@.last()));
                lemma_char_type_views_push(vs_before, v@.last());
            }
        }
        if match_char {
            Ok(CharacterType::Any(v))
        } else {
            Ok(CharacterType::Not(v))
        }
    }

    /// One member of a character class: a literal, a same-class range, an
    /// escape, or a chained range.
    fn next_character(&mut self) -> (r: Result<Box<CharacterType>, Error>)
        requires
            old(self).wf(),
        ensures
            final(self).same_input(*old(self)),
            final(self).wf(),
            final(self).capture_group == old(self).capture_group,
            old(self).idx <= final(self).idx,
            r is Ok ==> final(self).idx > old(self).idx,
            match spec_next_character(old(self).text@, old(self).idx as int) {
                Scanned::SGood(cv, ni) => r matches Ok(b) && char_type_view(*b) == cv
                    && final(self).idx == ni,
                Scanned::SBad(e) => r matches Err(x) && x == e,
            },
        decreases self.text@.len() - self.idx,
    {
        let ghost pre = *self;
        let ghost s = self.text@;
        if !self.more() {
            return Err(Error::UnexpectedEnd);
        }
        let a = self.peek();
        let au = a as u32;
        let c: CharacterType;
        if ('0' as u32 <= au && au <= '9' as u32) || ('a' as u32 <= au && au <= 'z' as u32) || ('A' as u32 <= au && au <= 'Z' as u32) {
            match self.consume(a) {
                Ok(_) => (),
                Err(e) => {
                    return Err(e);
                },
            }
            let mut dash: bool = false;
            if self.more() {
                if self.peek() == '-' {
                    dash = true;
                }
            }
            if dash {
                match self.consume('-') {
                    Ok(_) => (),
                    Err(e) => {
                        return Err(e);
                    },
                }
                if !self.more() {
                    return Err(Error::UnexpectedEnd);
                }
                let b = self.peek();
                let bu = b as u32;
                let same_class: bool = ('0' as u32 <= au && au <= '9' as u32 && '0' as u32 <= bu
                    && bu <= '9' as u32) || ('a' as u32 <= au && au <= 'z' as u32 && 'a' as u32
                    <= bu && bu <= 'z' as u32) || ('A' as u32 <= au && au <= 'Z' as u32
                    && 'A' as u32 <= bu && bu <= 'Z' as u32);
                if same_class {
                    match self.consume(b) {
                        Ok(_) => (),
                        Err(e) => {
                            return Err(e);
                        },
                    }
                    c = CharacterType::Between(
                        Box::new(CharacterType::Terminal(a)),
                        Box::new(CharacterType::Terminal(b)),
                    );
                    proof {
                        reveal_with_fuel(char_type_view, 3);
                        assert(char_type_view(c) == CharacterTypeView::Between(
                            Box::new(CharacterTypeView::Terminal(a)),
                            Box::new(CharacterTypeView::Terminal(b)),
                        ));
                        assert(spec_next_character(s, pre.idx as int) == spec_trail(
                            s,
                            self.idx as int,
                            char_type_view(c),
                        ));
                    }
                } else {
                    return Err(Error::CharacterRange(a, b));
                }
            } else {
                c = CharacterType::Terminal(a);
                proof {
                    assert(spec_next_character(s, pre.idx as int) == spec_trail(
                        s,
                        self.idx as int,
                        char_type_view(c),
                    ));
                }
            }
        } else if a == '\\' {
            match self.consume('\\') {
                Ok(_) => (),
                Err(e) => {
                    return Err(e);
                },
            }
            if !self.more() {
                return Err(Error::UnexpectedEnd);
            }
            let m = self.peek();
            if m == 'w' {
                match self.consume('w') {
                    Ok(_) => (),
                    Err(e) => {
                        return Err(e);
                    },
                }
                c = CharacterType::Meta(MetaCharacter::Word(true));
            } else if m == 'W' {
                match self.consume('W') {
                    Ok(_) => (),
                    Err(e) => {
                        return Err(e);
                    },
                }
                c = CharacterType::Meta(MetaCharacter::Word(false));
            } else if m == 'd' {
                match self.consume('d') {
                    Ok(_) => (),
                    Err(e) => {
                        return Err(e);
                    },
                }
                c = CharacterType::Meta(MetaCharacter::Digit(true));
            } else if m == 'D' {
                match self.consume('D') {
                    Ok(_) => (),
                    Err(e) => {
                        return Err(e);
                    },
                }
                c = CharacterType::Meta(MetaCharacter::Digit(false));
            } else if m == 's' {
                match self.consume('s') {
                    Ok(_) => (),
                    Err(e) => {
                        return Err(e);
                    },
                }
                c = CharacterType::Meta(MetaCharacter::Whitespace(true));
            } else if m == 'S' {
                match self.consume('S') {
                    Ok(_) => (),
                    Err(e) => {
                        return Err(e);
                    },
                }
                c = CharacterType::Meta(MetaCharacter::Whitespace(false));
            } else {
                c = CharacterType::Terminal('\\');
            }
        } else {
            match self.consume(a) {
                Ok(_) => (),
                Err(e) => {
                    return Err(e);
                },
            }
            c = CharacterType::Terminal(a);
        }
        proof {
            assert(spec_next_character(s, pre.idx as int) == spec_trail(
                s,
                self.idx as int,
                char_type_view(c),
            ));
        }
        let mut dash2: bool = false;
        if self.more() {
            if self.peek() == '-' {
                dash2 = true;
            }
        }
        if !dash2 {
            return Ok(Box::new(c));
        }
        let nb = self.peek_n(1);
        let stop: bool = match nb {
            Some(x) => x == ']',
            None => false,
        };
        if stop {
            Ok(Box::new(c))
        } else {
            match self.next_character() {
                Err(e) => Err(e),
                Ok(c2) => Ok(Box::new(CharacterType::Between(Box::new(c), c2))),
            }
        }
    }
}

} // verus!

verus! {

/// Parsing is deterministic: identical input always yields an identical
/// syntax tree. Two parsers over the same text, escape character, cursor
/// and capture counter that both satisfy the parsing contract agree on
/// success, on the tree produced, and on the error reported.
pub proof fn lemma_parse_deterministic(
    p1: RegExParser,
    p2: RegExParser,
    q1: RegExParser,
    q2: RegExParser,
    r1: Result<RegEx, Error>,
    r2: Result<RegEx, Error>,
)
    requires
        p1.text@ == p2.text@,
        p1.escape == p2.escape,
        p1.idx == p2.idx,
        p1.capture_group == p2.capture_group,
        parse_step(
            p1,
            q1,
            r1,
            spec_alternation(p1.text@, p1.escape, p1.idx as int, p1.capture_group as int),
        ),
        parse_step(
            p2,
            q2,
            r2,
            spec_alternation(p2.text@, p2.escape, p2.idx as int, p2.capture_group as int),
        ),
    ensures
        r1 is Ok <==> r2 is Ok,
        r1 is Ok && r2 is Ok ==> regex_view(r1->Ok_0) == regex_view(r2->Ok_0),
        r1 is Err && r2 is Err ==> r1->Err_0 == r2->Err_0,
        r1 is Ok ==> q1.idx == q2.idx && q1.capture_group == q2.capture_group,
{
}

} // verus!

verus! {

/// A literal run never moves the cursor backward or past the end.
proof fn lemma_run_bounds(s: Seq<char>, esc: Option<char>, i: int, acc: Seq<char>)
    requires
        0 <= i <= s.len(),
    ensures
        spec_run(s, esc, i, acc) matches Scanned::SGood(t, ni) ==> i <= ni <= s.len(),
    decreases s.len() - i, 0int,
{
    if 0 <= i < s.len() && !is_special(s[i]) {
        if esc matches Option::Some(e) && e == s[i] {
            if i + 1 < s.len() {
                lemma_run_bounds(s, esc, i + 2, acc.push(s[i + 1]));
            }
        } else {
            lemma_run_bounds(s, esc, i + 1, acc.push(s[i]));
        }
    }
}

/// Scanning the minimum count never moves the cursor backward or past
/// the end.
proof fn lemma_scan_min_bounds(s: Seq<char>, i: int, min: int)
    requires
        0 <= i <= s.len(),
    ensures
        spec_scan_min(s, i, min) matches Scanned::SGood(t, ni) ==> i <= ni <= s.len(),
    decreases s.len() - i, 4int,
{
    if 0 <= i < s.len() && s[i] != '}' && is_digit(s[i]) && min * 10 + digit_val(s[i])
        <= u32::MAX {
        lemma_scan_min_bounds(s, i + 1, min * 10 + digit_val(s[i]));
    }
}

/// Scanning the maximum count never moves the cursor backward or past
/// the end.
proof fn lemma_scan_max_bounds(s: Seq<char>, i: int, max: Option<int>)
    requires
        0 <= i <= s.len(),
    ensures
        spec_scan_max(s, i, max) matches Scanned::SGood(t, ni) ==> i <= ni <= s.len(),
    decreases s.len() - i, 4int,
{
    if 0 <= i < s.len() && s[i] != '}' && is_digit(s[i]) {
        let m = match max {
            Option::Some(m0) => m0 * 10 + digit_val(s[i]),
            Option::None => digit_val(s[i]),
        };
        if m <= u32::MAX {
            lemma_scan_max_bounds(s, i + 1, Option::Some(m));
        }
    }
}

/// A quantifier never moves the cursor backward or past the end.
proof fn lemma_rep_group_bounds(s: Seq<char>, i: int)
    requires
        0 <= i <= s.len(),
    ensures
        spec_rep_group(s, i) matches Scanned::SGood(rt, ni) ==> i <= ni <= s.len(),
    decreases s.len() - i, 5int,
{
    if 0 <= i < s.len() && s[i] == '{' {
        lemma_scan_min_bounds(s, i + 1, 0);
        match spec_scan_min(s, i + 1, 0) {
            Scanned::SGood((min, two), i2) => {
                if two {
                    lemma_scan_max_bounds(s, i2, Option::None);
                }
            },
            _ => {},
        }
    }
}

/// A class member list never moves the cursor backward or past the end.
proof fn lemma_char_list_bounds(s: Seq<char>, i: int, acc: Seq<CharacterTypeView>)
    requires
        0 <= i <= s.len(),
    ensures
        spec_char_list(s, i, acc) matches Scanned::SGood(t, ni) ==> i <= ni <= s.len(),
    decreases s.len() - i, 2int,
{
    if 0 <= i < s.len() && s[i] != ']' {
        match spec_next_character(s, i) {
            Scanned::SGood(c, i2) => {
                if i < i2 <= s.len() {
                    lemma_char_list_bounds(s, i2, acc.push(c));
                }
            },
            _ => {},
        }
    }
}

/// A character class never moves the cursor backward or past the end.
proof fn lemma_character_bounds(s: Seq<char>, i: int)
    requires
        0 <= i <= s.len(),
    ensures
        spec_character(s, i) matches Scanned::SGood(t, ni) ==> i <= ni <= s.len(),
    decreases s.len() - i, 3int,
{
    if 0 <= i < s.len() && s[i] == '^' {
        lemma_char_list_bounds(s, i + 1, Seq::empty());
    } else {
        lemma_char_list_bounds(s, i, Seq::empty());
    }
}

/// A group the parser accepts yields a tree satisfying the structural
/// invariant, with the cursor moved forward and kept in bounds.
proof fn lemma_group_wf(s: Seq<char>, esc: Option<char>, i: int, cg: int)
    requires
        0 <= i <= s.len(),
    ensures
        spec_group(s, esc, i, cg) matches Parsed::Good(v, ni, ncg) ==> ast_wf(v) && i <= ni
            <= s.len(),
    decreases s.len() - i, 3int,
{
    if 0 <= i < s.len() {
        if s[i] == '(' {
            if i + 1 < s.len() && s[i + 1] == '?' {
                if i + 2 < s.len() && s[i + 2] == ':' {
                    lemma_alternation_wf(s, esc, i + 3, cg + 1);
                } else if i + 2 < s.len() && s[i + 2] == '<' {
                    match spec_scan_name(s, i + 3, Seq::empty()) {
                        Scanned::SGood(name, i4) => {
                            if i < i4 <= s.len() {
                                lemma_alternation_wf(s, esc, i4, cg + 1);
                            }
                        },
                        _ => {},
                    }
                }
            } else if i + 1 < s.len() {
                lemma_alternation_wf(s, esc, i + 1, cg);
            }
        } else if s[i] == '[' {
            lemma_character_bounds(s, i + 1);
        } else if s[i] == '\\' {
        } else if s[i] == '^' || s[i] == '$' || s[i] == '.' || s[i] == '}' || s[i] == ']' {
        } else {
            lemma_run_bounds(s, esc, i, Seq::empty());
        }
    }
}

/// A repetition the parser accepts yields a tree satisfying the
/// structural invariant, with the cursor moved forward and kept in
/// bounds.
proof fn lemma_repetition_wf(s: Seq<char>, esc: Option<char>, i: int, cg: int)
    requires
        0 <= i <= s.len(),
    ensures
        spec_repetition(s, esc, i, cg) matches Parsed::Good(v, ni, ncg) ==> ast_wf(v) && i <= ni
            <= s.len(),
    decreases s.len() - i, 6int,
{
    lemma_group_wf(s, esc, i, cg);
    match spec_group(s, esc, i, cg) {
        Parsed::Good(b, i2, cg2) => {
            if i <= i2 <= s.len() && i2 < s.len() && s[i2] == '{' {
                lemma_rep_group_bounds(s, i2);
            }
        },
        _ => {},
    }
}

/// An element the parser accepts, built on a list satisfying the
/// structural invariant, yields a tree satisfying it too.
proof fn lemma_element_wf(s: Seq<char>, esc: Option<char>, i: int, cg: int, acc: Seq<RegExView>)
    requires
        0 <= i <= s.len(),
        ast_list_wf(acc),
    ensures
        spec_element(s, esc, i, cg, acc) matches Parsed::Good(v, ni, ncg) ==> ast_wf(v) && i
            <= ni <= s.len(),
    decreases s.len() - i, 7int,
{
    if 0 <= i < s.len() && s[i] != ')' && s[i] != '|' {
        lemma_repetition_wf(s, esc, i, cg);
        match spec_repetition(s, esc, i, cg) {
            Parsed::Good(r, i2, cg2) => {
                if i < i2 <= s.len() {
                    assert(acc.push(r).drop_last() =~= acc);
                    assert(acc.push(r).last() == r);
                    lemma_element_wf(s, esc, i2, cg2, acc.push(r));
                }
            },
            _ => {},
        }
    }
}

/// The remaining branches of an alternation extend the accumulated
/// branch list, keep it well-formed, and add at least one branch when a
/// separator stands at the cursor.
proof fn lemma_alt_rest_wf(s: Seq<char>, esc: Option<char>, i: int, cg: int, acc: Seq<RegExView>)
    requires
        0 <= i <= s.len(),
        ast_list_wf(acc),
    ensures
        ({
            let res = spec_alt_rest(s, esc, i, cg, acc);
            res is Good ==> (res->Good_0 is Alternation && ast_list_wf(
                res->Good_0->Alternation_0,
            ) && i <= res->Good_1 <= s.len() && res->Good_0->Alternation_0.len() >= acc.len() + (
            if 0 <= i < s.len() && s[i] == '|' {
                1int
            } else {
                0int
            }))
        }),
    decreases s.len() - i, 8int,
{
    if 0 <= i < s.len() && s[i] == '|' {
        lemma_element_wf(s, esc, i + 1, cg, Seq::empty());
        match spec_element(s, esc, i + 1, cg, Seq::empty()) {
            Parsed::Good(e, i2, cg2) => {
                if i < i2 <= s.len() {
                    assert(acc.push(e).drop_last() =~= acc);
                    assert(acc.push(e).last() == e);
                    lemma_alt_rest_wf(s, esc, i2, cg2, acc.push(e));
                }
            },
            _ => {},
        }
    }
}

/// An alternation the parser accepts yields a tree satisfying the
/// structural invariant: in particular, an alternation node is only
/// built with at least two branches.
proof fn lemma_alternation_wf(s: Seq<char>, esc: Option<char>, i: int, cg: int)
    requires
        0 <= i <= s.len(),
    ensures
        spec_alternation(s, esc, i, cg) matches Parsed::Good(v, ni, ncg) ==> ast_wf(v) && i <= ni
            <= s.len(),
    decreases s.len() - i, 9int,
{
    lemma_element_wf(s, esc, i, cg, Seq::empty());
    match spec_element(s, esc, i, cg, Seq::empty()) {
        Parsed::Good(e1, i1, cg1) => {
            if i <= i1 <= s.len() && i1 < s.len() && s[i1] == '|' {
                reveal_with_fuel(ast_list_wf, 3);
                assert(seq![e1].drop_last() =~= Seq::<RegExView>::empty());
                assert(ast_list_wf(seq![e1]));
                lemma_alt_rest_wf(s, esc, i1, cg1, seq![e1]);
            }
        },
        _ => {},
    }
}

/// Every tree the parser accepts satisfies the structural invariant of
/// parsed trees — its alternations all have at least two branches — so
/// the diagram generated from it is a constructible layout node.
pub proof fn lemma_parse_ast_wf(s: Seq<char>, esc: Option<char>)
    ensures
        spec_parse(s, esc) matches Parsed::Good(v, ni, ncg) ==> ast_wf(v),
{
    lemma_alternation_wf(s, esc, 0, 0);
}

} // verus!
