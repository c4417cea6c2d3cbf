use regex_railroad::error::Error;
use regex_railroad::extract::{Language, RegexExtractor};
use regex_railroad::parser::RegExParser;
use regex_railroad::text::TextRenderer;

#[test]
fn test_text_alternation() {
    // "a|b" in text mode: the two descriptions joined by OR.
    let mut parser = RegExParser::new(Language::Rust, &"a|b".to_string());
    let ast = parser.parse().unwrap();
    let (lines, highlight) = TextRenderer::render_text(&ast).unwrap();
    assert_eq!(lines, vec!["'a' OR 'b'".to_string()]);
    assert_eq!(highlight, vec![]);
}

#[test]
fn test_text_terminal_and_repetition() {
    let mut parser = RegExParser::new(Language::Rust, &"ab".to_string());
    let ast = parser.parse().unwrap();
    let (lines, highlight) = TextRenderer::render_text(&ast).unwrap();
    assert_eq!(lines, vec!["EXACTLY:".to_string(), "    'ab'".to_string()]);
    assert_eq!(highlight, vec![(0, 0, 8)]);

    let mut parser = RegExParser::new(Language::Rust, &"a{3}".to_string());
    let ast = parser.parse().unwrap();
    let (lines, highlight) = TextRenderer::render_text(&ast).unwrap();
    assert_eq!(
        lines,
        vec!["EXACTLY 3:".to_string(), "    'a'".to_string()]
    );
    assert_eq!(highlight, vec![(0, 0, 10)]);

    let mut parser = RegExParser::new(Language::Rust, &"a{5,}".to_string());
    let ast = parser.parse().unwrap();
    let (lines, highlight) = TextRenderer::render_text(&ast).unwrap();
    assert_eq!(
        lines,
        vec!["5 OR MORE:".to_string(), "    'a'".to_string()]
    );
    assert_eq!(highlight, vec![(0, 0, 10)]);
}

#[test]
fn test_text_character_class() {
    let mut parser = RegExParser::new(Language::Rust, &"[a-z]".to_string());
    let ast = parser.parse().unwrap();
    let (lines, highlight) = TextRenderer::render_text(&ast).unwrap();
    assert_eq!(lines, vec!["MATCH:".to_string(), " [a-z]".to_string()]);
    assert_eq!(highlight, vec![(0, 0, 7)]);
}

#[test]
fn test_text_rejects_captures() {
    // Capture groups are explicitly rejected by the text renderer.
    let mut parser = RegExParser::new(Language::Rust, &"(?:a)".to_string());
    let ast = parser.parse().unwrap();
    assert!(matches!(
        TextRenderer::render_text(&ast),
        Err(Error::InvalidParsing)
    ));
}

#[test]
fn test_from_filename() {
    assert_eq!(Language::from_filename("main.py"), Language::Python);
    assert_eq!(Language::from_filename("lib.rs"), Language::Rust);
    assert_eq!(Language::from_filename("app.test.js"), Language::Javascript);
    assert_eq!(
        Language::from_filename("notes.txt"),
        Language::Unknown("txt".to_string())
    );
    assert_eq!(
        Language::from_filename("Makefile"),
        Language::Unknown("Makefile".to_string())
    );
}

#[test]
fn test_get_regex() {
    let extractor = RegexExtractor::new();
    assert_eq!(
        extractor
            .get_regex(&Language::Rust, "r\"a|b\"")
            .unwrap(),
        "a|b".to_string()
    );
    assert_eq!(
        extractor
            .get_regex(&Language::Javascript, "\"x+\"")
            .unwrap(),
        "x+".to_string()
    );
    assert!(matches!(
        extractor.get_regex(&Language::Unknown("txt".to_string()), "\"a\""),
        Err(Error::UnsupportedLanguage(_))
    ));
}

#[test]
fn test_error_messages() {
    assert_eq!(
        Error::CharacterRange('a', '1').message(),
        "Invalid character range [a-1]".to_string()
    );
    assert_eq!(
        Error::RepetitionValue('x').message(),
        "Expected number for repetition amount, received 'x'".to_string()
    );
    assert_eq!(
        Error::UnexpectedEnd.message(),
        "Unexpected end of expression".to_string()
    );
    assert_eq!(
        Error::UnsupportedLanguage(Language::Unknown("txt".to_string())).message(),
        "Unsupported language txt".to_string()
    );
}

#[test]
fn test_string_format_escape_char() {
    // Only the escape character of a language's string format is also
    // consulted by the parser.
    let mut parser = RegExParser::new(Language::Python, &"a\\|b".to_string());
    let ast = parser.parse().unwrap();
    let (lines, _) = TextRenderer::render_text(&ast).unwrap();
    assert_eq!(lines, vec!["EXACTLY:".to_string(), "    'a|b'".to_string()]);
}

#[test]
fn test_escape_char_accessor() {
    let extractor = RegexExtractor::new();
    // The format table gives backslash as the escape character for every
    // supported language; the regex reaches the parser unquoted.
    assert_eq!(
        extractor.get_regex(&Language::Python, "r\"a\\d\"").unwrap(),
        "a\\d".to_string()
    );
}
