use regex_railroad::ast::RegEx::{Alternation, Capture, Character, Element, Repetition, Terminal};
use regex_railroad::ast::CharacterType;
use regex_railroad::ast::MetaCharacter;
use regex_railroad::ast::RepetitionType;
use regex_railroad::error::Error;
use regex_railroad::extract::Language;
use regex_railroad::parser::RegExParser;

#[test]
fn test_simple_regex() {
    let mut parser = RegExParser::new(Language::Rust, &"a|b".to_string());
    assert_eq!(
        parser.parse().unwrap(),
        Alternation(vec![
            Box::new(Element(vec![Box::new(Terminal('a'.to_string()))])),
            Box::new(Element(vec![Box::new(Terminal('b'.to_string()))]))
        ])
    );

    let mut parser = RegExParser::new(Language::Rust, &"a*".to_string());
    assert_eq!(
        parser.parse().unwrap(),
        Element(vec![Box::new(Repetition(
            RepetitionType::OrMore(0),
            Box::new(Terminal('a'.to_string()))
        ))])
    );
}

#[test]
fn test_moderate_regex() {
    let mut parser = RegExParser::new(Language::Rust, &"(a|b)+".to_string());
    assert_eq!(
        parser.parse().unwrap(),
        Element(vec![Box::new(Repetition(
            RepetitionType::OrMore(1),
            Box::new(Alternation(vec![
                Box::new(Element(vec![Box::new(Terminal('a'.to_string()))])),
                Box::new(Element(vec![Box::new(Terminal('b'.to_string()))]))
            ]))
        ))])
    );
}

#[test]
fn test_hard_regex() {
    let mut parser = RegExParser::new(Language::Rust, &"a{8}".to_string());
    assert_eq!(
        parser.parse().unwrap(),
        Element(vec![Box::new(Repetition(
            RepetitionType::Exactly(8),
            Box::new(Terminal('a'.to_string()))
        ))])
    );
    let mut parser = RegExParser::new(Language::Rust, &"a{5,}".to_string());
    assert_eq!(
        parser.parse().unwrap(),
        Element(vec![Box::new(Repetition(
            RepetitionType::OrMore(5),
            Box::new(Terminal('a'.to_string()))
        ))])
    );

    let mut parser = RegExParser::new(Language::Rust, &"a{1,10}".to_string());
    assert_eq!(
        parser.parse().unwrap(),
        Element(vec![Box::new(Repetition(
            RepetitionType::Between(1, 10),
            Box::new(Terminal('a'.to_string()))
        ))])
    );
}

#[test]
fn test_character_class() {
    let mut parser = RegExParser::new(Language::Rust, &"[a-z0-9]".to_string());
    assert_eq!(
        parser.parse().unwrap(),
        Element(vec![Box::new(Character(CharacterType::Any(vec![
            Box::new(CharacterType::Between(
                Box::new(CharacterType::Terminal('a')),
                Box::new(CharacterType::Terminal('z'))
            )),
            Box::new(CharacterType::Between(
                Box::new(CharacterType::Terminal('0')),
                Box::new(CharacterType::Terminal('9'))
            )),
        ])))])
    );

    let mut parser = RegExParser::new(Language::Rust, &"[^a-z]".to_string());
    assert_eq!(
        parser.parse().unwrap(),
        Element(vec![Box::new(Character(CharacterType::Not(vec![Box::new(
            CharacterType::Between(
                Box::new(CharacterType::Terminal('a')),
                Box::new(CharacterType::Terminal('z'))
            )
        ),])))])
    );
}

#[test]
fn test_capture_groups() {
    let mut parser = RegExParser::new(Language::Rust, &"(?<name>a)".to_string());
    assert_eq!(
        parser.parse().unwrap(),
        Element(vec![Box::new(Capture(
            Some("name".to_string()),
            1,
            Box::new(Element(vec![Box::new(Terminal('a'.to_string()))]))
        ))])
    );

    let mut parser = RegExParser::new(Language::Rust, &"(?:a)".to_string());
    assert_eq!(
        parser.parse().unwrap(),
        Element(vec![Box::new(Capture(
            None,
            1,
            Box::new(Element(vec![Box::new(Terminal('a'.to_string()))]))
        ))])
    );

    // A group without a capture prefix nests its alternation directly and
    // assigns no number.
    let mut parser = RegExParser::new(Language::Rust, &"(a(b))".to_string());
    assert_eq!(
        parser.parse().unwrap(),
        Element(vec![Box::new(Element(vec![
            Box::new(Terminal('a'.to_string())),
            Box::new(Element(vec![Box::new(Terminal('b'.to_string()))]))
        ]))])
    );
    assert_eq!(parser.capture_group, 0);

    // Nested capture prefixes are numbered left to right by opening
    // delimiter.
    let mut parser = RegExParser::new(Language::Rust, &"(?:a(?:b))".to_string());
    assert_eq!(
        parser.parse().unwrap(),
        Element(vec![Box::new(Capture(
            None,
            1,
            Box::new(Element(vec![
                Box::new(Terminal('a'.to_string())),
                Box::new(Capture(
                    None,
                    2,
                    Box::new(Element(vec![Box::new(Terminal('b'.to_string()))]))
                ))
            ]))
        ))])
    );
}

#[test]
fn test_parse_errors() {
    let mut parser = RegExParser::new(Language::Rust, &"(a".to_string());
    assert!(matches!(parser.parse(), Err(Error::UnexpectedEnd)));

    let mut parser = RegExParser::new(Language::Rust, &"}".to_string());
    assert!(matches!(parser.parse(), Err(Error::InvalidCharacter('}', 0))));

    let mut parser = RegExParser::new(Language::Rust, &"[a-Z]".to_string());
    assert!(matches!(
        parser.parse(),
        Err(Error::CharacterRange('a', 'Z'))
    ));

    let mut parser = RegExParser::new(Language::Rust, &"a{x}".to_string());
    assert!(matches!(parser.parse(), Err(Error::RepetitionValue('x'))));

    // A count that cannot be represented is a repetition-value error.
    let mut parser = RegExParser::new(Language::Rust, &"a{99999999999}".to_string());
    assert!(matches!(parser.parse(), Err(Error::RepetitionValue('9'))));

    let mut parser = RegExParser::new(Language::Rust, &"(?x)".to_string());
    assert!(matches!(parser.parse(), Err(Error::InvalidCharacter('?', 2))));
}

#[test]
fn test_escaped_literals_and_meta() {
    // The escape character is stripped inside literal runs.
    let mut parser = RegExParser::new(Language::Rust, &"a\\.b".to_string());
    assert_eq!(
        parser.parse().unwrap(),
        Element(vec![Box::new(Terminal("a.b".to_string()))])
    );

    // A leading escape denotes a meta character class.
    let mut parser = RegExParser::new(Language::Rust, &"\\d".to_string());
    assert_eq!(
        parser.parse().unwrap(),
        Element(vec![Box::new(Character(CharacterType::Meta(
            MetaCharacter::Digit(true)
        )))])
    );
}
