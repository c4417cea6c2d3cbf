//! Per-language string formats and the extraction of a regular expression
//! from the text of a string literal.

use vstd::prelude::*;
use vstd::string::StringExecFns;
use crate::error::Error;
use crate::strings::chars_vec;
use crate::strings::string_of_chars;

verus! {

/// How a language writes string literals: its string delimiters, its escape
/// character, and its optional raw-string delimiters.
pub struct StringFormat {
    pub string_character: Vec<String>,
    pub escape_character: char,
    pub literal_string_start: Option<Vec<String>>,
    pub literal_string_end: Option<Vec<String>>,
}

impl StringFormat {
    /// The escape character of this format.
    pub fn escape_char(&self) -> (r: char)
        ensures
            r == self.escape_character,
    {
        self.escape_character
    }
}

/// A programming language recognised by its file extension.
#[derive(Clone, PartialEq, Eq, Hash, Debug)]
pub enum Language {
    Python,
    Rust,
    Javascript,
    /// A file extension with no known language.
    Unknown(String),
    /// A file name with no extension at all.
    NoExtension,
}

/// The position of the last `'.'` in `s`, if any.
pub open spec fn spec_last_dot(s: Seq<char>) -> Option<int>
    decreases s.len(),
{
    if s.len() == 0 {
        Option::None
    } else if s[s.len() - 1] == '.' {
        Option::Some(s.len() - 1)
    } else {
        spec_last_dot(s.drop_last())
    }
}

/// The extension of a file name: everything after the last `'.'`, or the
/// whole name when it holds no `'.'`.
pub open spec fn spec_extension(s: Seq<char>) -> Seq<char> {
    match spec_last_dot(s) {
        Option::None => s,
        Option::Some(i) => s.subrange(i + 1, s.len() as int),
    }
}

/// An exact copy of a language value.
pub fn clone_language(l: &Language) -> (r: Language)
    ensures
        r == *l,
{
    match l {
        Language::Python => Language::Python,
        Language::Rust => Language::Rust,
        Language::Javascript => Language::Javascript,
        Language::Unknown(s) => Language::Unknown(s.clone()),
        Language::NoExtension => Language::NoExtension,
    }
}

impl Language {
    /// The language a file belongs to, judged by the extension of its name.
    pub fn from_filename(filename: &str) -> (r: Language)
        ensures
            ({
                let ext = spec_extension(filename@);
                &&& (ext == "py"@ ==> r == Language::Python)
                &&& (ext == "rs"@ ==> r == Language::Rust)
                &&& (ext == "js"@ ==> r == Language::Javascript)
                &&& (ext != "py"@ && ext != "rs"@ && ext != "js"@ ==> (r matches Language::Unknown(
                    e,
                ) && e@ == ext))
            }),
    {
        let chars = chars_vec(filename);
        let ghost f = filename@;
        let mut k: usize = chars.len();
        let mut has_dot: bool = false;
        let mut dot: usize = 0;
        proof {
            assert(f.subrange(0, f.len() as int) =~= f);
        }
        while k > 0 && !has_dot
            invariant
                chars@ == f,
                k <= f.len(),
                has_dot ==> spec_last_dot(f) == Option::Some(dot as int) && dot < f.len(),
                !has_dot ==> spec_last_dot(f) == spec_last_dot(f.subrange(0, k as int)),
            decreases k,
        {
            k = k - 1;
            if chars[k] == '.' {
                has_dot = true;
                dot = k;
                proof {
                    let sub = f.subrange(0, (k + 1) as int);
                    assert(sub[sub.len() - 1] == '.');
                }
            } else {
                proof {
                    let sub = f.subrange(0, (k + 1) as int);
                    assert(sub[sub.len() - 1] != '.');
                    assert(sub.drop_last() =~= f.subrange(0, k as int));
                }
            }
        }
        proof {
            if !has_dot {
                assert(f.subrange(0, 0) =~= Seq::<char>::empty());
            }
        }
        let start: usize = if has_dot { dot + 1 } else { 0 };
        let mut ext: Vec<char> = Vec::new();
        let mut i: usize = start;
        while i < chars.len()
            invariant
                chars@ == f,
                start <= i <= f.len(),
                ext@ == f.subrange(start as int, i as int),
            decreases f.len() - i,
        {
            ext.push(chars[i]);
            proof {
                assert(ext@ =~= f.subrange(start as int, (i + 1) as int));
            }
            i = i + 1;
        }
        proof {
            assert(ext@ =~= spec_extension(f));
            reveal_strlit("py");
            reveal_strlit("rs");
            reveal_strlit("js");
        }
        if ext.len() == 2 && ext[0] == 'p' && ext[1] == 'y' {
            proof {
                assert(ext@ =~= "py"@);
            }
            Language::Python
        } else if ext.len() == 2 && ext[0] == 'r' && ext[1] == 's' {
            proof {
                assert(ext@ =~= "rs"@);
            }
            Language::Rust
        } else if ext.len() == 2 && ext[0] == 'j' && ext[1] == 's' {
            proof {
                assert(ext@ =~= "js"@);
            }
            Language::Javascript
        } else {
            proof {
                if ext@ == "py"@ {
                    assert(ext@.len() == 2 && ext@[0] == 'p' && ext@[1] == 'y');
                }
                if ext@ == "rs"@ {
                    assert(ext@.len() == 2 && ext@[0] == 'r' && ext@[1] == 's');
                }
                if ext@ == "js"@ {
                    assert(ext@.len() == 2 && ext@[0] == 'j' && ext@[1] == 's');
                }
            }
            Language::Unknown(string_of_chars(&ext))
        }
    }
}

/// The standard format with double-quoted strings, backslash escapes and a
/// raw-string form opened by `r"` and closed by `"`.
pub open spec fn spec_format_raw(f: StringFormat) -> bool {
    &&& f.escape_character == '\\'
    &&& f.string_character@.len() == 1
    &&& f.string_character@[0]@ == "\""@
    &&& (f.literal_string_start matches Option::Some(s) && s@.len() == 1 && s@[0]@ == "r\""@)
    &&& (f.literal_string_end matches Option::Some(e) && e@.len() == 1 && e@[0]@ == "\""@)
}

/// The format with double-quoted strings and backslash escapes but no
/// raw-string form.
pub open spec fn spec_format_plain(f: StringFormat) -> bool {
    &&& f.escape_character == '\\'
    &&& f.string_character@.len() == 1
    &&& f.string_character@[0]@ == "\""@
    &&& f.literal_string_start is None
    &&& f.literal_string_end is None
}

/// The views of a list of pattern strings.
pub open spec fn spec_pat_views(ps: Seq<String>) -> Seq<Seq<char>> {
    ps.map_values(|p: String| p@)
}

/// The length of the longest pattern that is a strict prefix of `t`
/// (0 when none is).
pub open spec fn spec_max_start(t: Seq<char>, ps: Seq<Seq<char>>) -> int
    decreases ps.len(),
{
    if ps.len() == 0 {
        0
    } else {
        let m = spec_max_start(t, ps.drop_last());
        let p = ps.last();
        if t.len() > p.len() && t.subrange(0, p.len() as int) == p && p.len() > m {
            p.len() as int
        } else {
            m
        }
    }
}

/// The length of the longest pattern that is a strict suffix of `t`
/// (0 when none is).
pub open spec fn spec_max_end(t: Seq<char>, ps: Seq<Seq<char>>) -> int
    decreases ps.len(),
{
    if ps.len() == 0 {
        0
    } else {
        let m = spec_max_end(t, ps.drop_last());
        let p = ps.last();
        if t.len() > p.len() && t.subrange(t.len() - p.len(), t.len() as int) == p && p.len()
            > m {
            p.len() as int
        } else {
            m
        }
    }
}

/// `t` with the longest matching start pattern and the longest matching end
/// pattern removed. When the two matches would overlap, nothing is left.
pub open spec fn spec_strip(t: Seq<char>, starts: Seq<Seq<char>>, ends: Seq<Seq<char>>) -> Seq<
    char,
> {
    let a = spec_max_start(t, starts);
    let b = spec_max_end(t, ends);
    if a + b <= t.len() {
        t.subrange(a, t.len() - b)
    } else {
        Seq::empty()
    }
}

/// Whether `p` is a prefix of `t`.
fn prefix_eq(t: &Vec<char>, p: &Vec<char>) -> (r: bool)
    requires
        p@.len() <= t@.len(),
    ensures
        r == (t@.subrange(0, p@.len() as int) == p@),
{
    let mut i: usize = 0;
    let mut same: bool = true;
    while i < p.len() && same
        invariant
            p@.len() <= t@.len(),
            i <= p@.len(),
            same ==> t@.subrange(0, i as int) == p@.subrange(0, i as int),
            !same ==> t@.subrange(0, p@.len() as int) != p@,
        decreases p@.len() - i,
    {
        if t[i] != p[i] {
            proof {
                assert(t@.subrange(0, p@.len() as int)[i as int] != p@[i as int]);
            }
            same = false;
        } else {
            proof {
                assert(t@.subrange(0, (i + 1) as int) =~= p@.subrange(0, (i + 1) as int));
            }
        }
        i = i + 1;
    }
    proof {
        if same {
            assert(t@.subrange(0, p@.len() as int) =~= p@.subrange(0, p@.len() as int));
            assert(p@.subrange(0, p@.len() as int) =~= p@);
        }
    }
    same
}

/// Whether `p` is a suffix of `t`.
fn suffix_eq(t: &Vec<char>, p: &Vec<char>) -> (r: bool)
    requires
        p@.len() <= t@.len(),
    ensures
        r == (t@.subrange(t@.len() - p@.len(), t@.len() as int) == p@),
{
    let off: usize = t.len() - p.len();
    let tlen: usize = t.len();
    let mut i: usize = 0;
    let mut same: bool = true;
    let ghost suff = t@.subrange(t@.len() - p@.len(), t@.len() as int);
    while i < p.len() && same
        invariant
            p@.len() <= t@.len(),
            tlen == t@.len(),
            off == t@.len() - p@.len(),
            suff == t@.subrange(t@.len() - p@.len(), t@.len() as int),
            i <= p@.len(),
            same ==> suff.subrange(0, i as int) == p@.subrange(0, i as int),
            !same ==> suff != p@,
        decreases p@.len() - i,
    {
        if t[off + i] != p[i] {
            proof {
                assert(suff[i as int] == t@[off + i]);
                assert(suff[i as int] != p@[i as int]);
            }
            same = false;
        } else {
            proof {
                assert(suff[i as int] == t@[off + i]);
                assert(suff.subrange(0, (i + 1) as int) =~= p@.subrange(0, (i + 1) as int));
            }
        }
        i = i + 1;
    }
    proof {
        if same {
            assert(suff.subrange(0, p@.len() as int) =~= suff);
            assert(p@.subrange(0, p@.len() as int) =~= p@);
        }
    }
    same
}

/// Extracts the regular expression held inside a string literal.
#[derive(Default)]
pub struct RegexExtractor {}

impl RegexExtractor {
    /// A new extractor.
    pub fn new() -> RegexExtractor {
        RegexExtractor {  }
    }

    /// The string format of a language, or an error for a language with no
    /// known format.
    fn get_string_format(&self, language: &Language) -> (r: Result<StringFormat, Error>)
        ensures
            language is Python || language is Rust ==> (r matches Ok(f) && spec_format_raw(f)),
            language is Javascript ==> (r matches Ok(f) && spec_format_plain(f)),
            language is Unknown || language is NoExtension ==> (r matches Err(e) && e
                == Error::UnsupportedLanguage(*language)),
    {
        match language {
            Language::Python | Language::Rust => {
                let fmt = StringFormat {
                    string_character: vec![String::from_str("\"")],
                    escape_character: '\\',
                    literal_string_start: Some(vec![String::from_str("r\"")]),
                    literal_string_end: Some(vec![String::from_str("\"")]),
                };
                Ok(fmt)
            },
            Language::Javascript => {
                let fmt = StringFormat {
                    string_character: vec![String::from_str("\"")],
                    escape_character: '\\',
                    literal_string_start: None,
                    literal_string_end: None,
                };
                Ok(fmt)
            },
            _ => Err(Error::UnsupportedLanguage(clone_language(language))),
        }
    }

    /// Strips the longest matching start pattern and the longest matching
    /// end pattern from `text`. When the two matches would overlap, the
    /// result is empty.
    fn strip_string_start_end(&self, text: &str, start: &Vec<String>, end: &Vec<String>) -> (r:
        String)
        ensures
            r@ == spec_strip(text@, spec_pat_views(start@), spec_pat_views(end@)),
    {
        let t = chars_vec(text);
        let ghost tv = text@;
        let ghost sviews = spec_pat_views(start@);
        let ghost eviews = spec_pat_views(end@);

        let mut max_start: usize = 0;
        let mut i: usize = 0;
        while i < start.len()
            invariant
                t@ == tv,
                i <= start@.len(),
                sviews == spec_pat_views(start@),
                max_start as int == spec_max_start(tv, sviews.take(i as int)),
                max_start <= tv.len(),
            decreases start@.len() - i,
        {
            let p = chars_vec(start[i].as_str());
            if t.len() > p.len() {
                let is_pre = prefix_eq(&t, &p);
                if is_pre && p.len() > max_start {
                    max_start = p.len();
                }
            }
            proof {
                assert(sviews.take((i + 1) as int).drop_last() =~= sviews.take(i as int));
                assert(sviews.take((i + 1) as int).last() == start@[i as int]@);
            }
            i = i + 1;
        }
        proof {
            assert(sviews.take(sviews.len() as int) =~= sviews);
        }

        let mut max_end: usize = 0;
        let mut j: usize = 0;
        while j < end.len()
            invariant
                t@ == tv,
                j <= end@.len(),
                eviews == spec_pat_views(end@),
                max_end as int == spec_max_end(tv, eviews.take(j as int)),
                max_end <= tv.len(),
            decreases end@.len() - j,
        {
            let p = chars_vec(end[j].as_str());
            if t.len() > p.len() {
                let is_suf = suffix_eq(&t, &p);
                if is_suf && p.len() > max_end {
                    max_end = p.len();
                }
            }
            proof {
                assert(eviews.take((j + 1) as int).drop_last() =~= eviews.take(j as int));
                assert(eviews.take((j + 1) as int).last() == end@[j as int]@);
            }
            j = j + 1;
        }
        proof {
            assert(eviews.take(eviews.len() as int) =~= eviews);
        }

        if max_start <= t.len() && t.len() - max_start >= max_end {
            let stop: usize = t.len() - max_end;
            let mut out: Vec<char> = Vec::new();
            let mut k: usize = max_start;
            while k < stop
                invariant
                    t@ == tv,
                    max_start <= k <= stop <= tv.len(),
                    out@ == tv.subrange(max_start as int, k as int),
                decreases stop - k,
            {
                out.push(t[k]);
                proof {
                    assert(out@ =~= tv.subrange(max_start as int, (k + 1) as int));
                }
                k = k + 1;
            }
            string_of_chars(&out)
        } else {
            String::new()
        }
    }

    /// The regular expression inside `text`: the text with the language's
    /// raw-string delimiters stripped when the language has them, else with
    /// its plain string delimiters stripped.
    pub fn get_regex(&self, language: &Language, text: &str) -> (r: Result<String, Error>)
        ensures
            language is Python || language is Rust ==> (r matches Ok(s) && s@ == spec_strip(
                text@,
                seq!["r\""@],
                seq!["\""@],
            )),
            language is Javascript ==> (r matches Ok(s) && s@ == spec_strip(
                text@,
                seq!["\""@],
                seq!["\""@],
            )),
            language is Unknown || language is NoExtension ==> (r matches Err(e) && e
                == Error::UnsupportedLanguage(*language)),
    {
        let fmt = match self.get_string_format(language) {
            Ok(f) => f,
            Err(e) => {
                return Err(e);
            },
        };
        match (&fmt.literal_string_start, &fmt.literal_string_end) {
            (Some(str_start), Some(str_end)) => {
                proof {
                    assert(spec_pat_views(str_start@) =~= seq!["r\""@]);
                    assert(spec_pat_views(str_end@) =~= seq!["\""@]);
                }
                Ok(self.strip_string_start_end(text, str_start, str_end))
            },
            _ => {
                proof {
                    assert(spec_pat_views(fmt.string_character@) =~= seq!["\""@]);
                }
                Ok(
                    self.strip_string_start_end(
                        text,
                        &fmt.string_character,
                        &fmt.string_character,
                    ),
                )
            },
        }
    }
}

} // verus!
