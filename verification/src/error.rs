//! The error type shared by the extractor, the parser and the renderers.

use vstd::prelude::*;
use vstd::string::StringExecFns;
use crate::extract::Language;
use crate::strings::push_char;

verus! {

/// Everything that can go wrong while extracting, parsing or rendering a
/// regular expression.
///
/// `CharacterRange`, `RepetitionValue`, `InvalidCharacter` and
/// `UnexpectedEnd` report user syntax errors; `StringIterator` reports a
/// cursor mismatch inside the parser; `InvalidParsing` reports an abstract
/// syntax tree shape a renderer does not accept.
#[derive(Clone, Debug)]
pub enum Error {
    /// A character-class range whose two endpoints belong to different
    /// character classes.
    CharacterRange(char, char),
    /// The parser expected the first character at the cursor but found the
    /// second.
    StringIterator(char, char),
    /// A character inside `{...}` that is neither a digit nor a comma, or a
    /// repetition count too large to represent.
    RepetitionValue(char),
    /// An unexpected character at the given input position.
    InvalidCharacter(char, usize),
    /// The input ended where the parser still required a character.
    UnexpectedEnd,
    /// A file whose type is not recognised.
    FileType(Language),
    /// A language with no known string format.
    UnsupportedLanguage(Language),
    /// Text that is not a valid string of the given language.
    InvalidString(Language, String),
    /// An abstract syntax tree shape that the renderer does not accept.
    InvalidParsing,
}

/// The display name of a language.
pub open spec fn spec_language_name(l: Language) -> Seq<char> {
    match l {
        Language::Python => "Python"@,
        Language::Rust => "Rust"@,
        Language::Javascript => "Javascript"@,
        Language::Unknown(s) => s@,
        Language::NoExtension => "None"@,
    }
}

/// The human-readable description of an error.
pub open spec fn spec_message(e: Error) -> Seq<char> {
    match e {
        Error::CharacterRange(a, b) => "Invalid character range ["@ + seq![a, '-', b, ']'],
        Error::StringIterator(a, b) => "Unknown error when parsing character '"@ + seq![a]
            + "', expected character '"@ + seq![b, '\''],
        Error::RepetitionValue(a) => "Expected number for repetition amount, received '"@
            + seq![a, '\''],
        Error::InvalidCharacter(a, _) => "Invalid character '"@ + seq![a, '\''],
        Error::UnexpectedEnd => "Unexpected end of expression"@,
        Error::FileType(l) => "Unsupported file type "@ + spec_language_name(l),
        Error::UnsupportedLanguage(l) => "Unsupported language "@ + spec_language_name(l),
        Error::InvalidString(l, s) => "Invalid "@ + spec_language_name(l) + " string "@ + s@,
        Error::InvalidParsing => "Invalid parsing"@,
    }
}

impl Language {
    /// The display name of this language.
    pub fn name(&self) -> (r: String)
        ensures
            r@ == spec_language_name(*self),
    {
        match self {
            Language::Python => String::from_str("Python"),
            Language::Rust => String::from_str("Rust"),
            Language::Javascript => String::from_str("Javascript"),
            Language::Unknown(s) => s.clone(),
            Language::NoExtension => String::from_str("None"),
        }
    }
}

impl Error {
    /// The human-readable description of this error.
    pub fn message(&self) -> (r: String)
        ensures
            r@ == spec_message(*self),
    {
        match self {
            Error::CharacterRange(a, b) => {
                let mut r = String::from_str("Invalid character range [");
                push_char(&mut r, *a);
                push_char(&mut r, '-');
                push_char(&mut r, *b);
                push_char(&mut r, ']');
                proof {
                    assert(r@ =~= spec_message(*self));
                }
                r
            },
            Error::StringIterator(a, b) => {
                let mut r = String::from_str("Unknown error when parsing character '");
                push_char(&mut r, *a);
                r.append("', expected character '");
                push_char(&mut r, *b);
                push_char(&mut r, '\'');
                proof {
                    assert(r@ =~= spec_message(*self));
                }
                r
            },
            Error::RepetitionValue(a) => {
                let mut r = String::from_str("Expected number for repetition amount, received '");
                push_char(&mut r, *a);
                push_char(&mut r, '\'');
                proof {
                    assert(r@ =~= spec_message(*self));
                }
                r
            },
            Error::InvalidCharacter(a, _) => {
                let mut r = String::from_str("Invalid character '");
                push_char(&mut r, *a);
                push_char(&mut r, '\'');
                proof {
                    assert(r@ =~= spec_message(*self));
                }
                r
            },
            Error::UnexpectedEnd => String::from_str("Unexpected end of expression"),
            Error::FileType(l) => {
                let mut r = String::from_str("Unsupported file type ");
                let n = l.name();
                r.append(n.as_str());
                r
            },
            Error::UnsupportedLanguage(l) => {
                let mut r = String::from_str("Unsupported language ");
                let n = l.name();
                r.append(n.as_str());
                r
            },
            Error::InvalidString(l, s) => {
                let mut r = String::from_str("Invalid ");
                let n = l.name();
                r.append(n.as_str());
                r.append(" string ");
                let t = s.clone();
                r.append(t.as_str());
                proof {
                    assert(r@ =~= spec_message(*self));
                }
                r
            },
            Error::InvalidParsing => String::from_str("Invalid parsing"),
        }
    }
}

} // verus!
