use regex_railroad::ast::CharacterType;
use regex_railroad::ast::RegEx;
use regex_railroad::ast::RepetitionType;
use regex_railroad::error::Error;
use regex_railroad::extract::Language;
use regex_railroad::parser::RegExParser;
use regex_railroad::railroad::draw::Draw;
use regex_railroad::railroad::draw::DrawGroup;
use regex_railroad::railroad::renderer::{
    Anchor, Capture, Choice, Node, Optional, RailroadRenderer, Repetition, Sequence, Stack, Start,
    Terminal,
};

fn terminal(text: &str) -> Node {
    Node::Terminal(Terminal::new(text.to_string()))
}

fn check_rectangle(n: &Node) {
    let rows = n.draw();
    assert_eq!(rows.len(), n.height());
    for row in rows.iter() {
        assert_eq!(row.chars().count(), n.width());
    }
    assert!(n.entry_height() < n.height());
}

#[test]
fn test_draw_dimensions() {
    // Every generated diagram node draws exactly height() rows of
    // exactly width() columns, with the rail strictly inside.
    check_rectangle(&Node::Start(Start::new()));
    check_rectangle(&Node::End(regex_railroad::railroad::renderer::End::new()));
    check_rectangle(&terminal("abc"));
    check_rectangle(&Node::Anchor(Anchor::new("LINE START".to_string())));
    check_rectangle(&Node::Repetition(Box::new(Repetition::new(
        terminal("a"),
        RepetitionType::Between(2, 4),
    ))));
    check_rectangle(&Node::Optional(Box::new(Optional::new(terminal("opt")))));
    check_rectangle(&Node::Choice(Choice::new(vec![
        terminal("a"),
        terminal("bb"),
        terminal("ccc"),
    ])));
    check_rectangle(&Node::Stack(Stack::new(
        false,
        vec!["a".to_string(), "b-c".to_string()],
    )));
    check_rectangle(&Node::Capture(Box::new(Capture::new(
        terminal("x"),
        "Group 1".to_string(),
    ))));
    check_rectangle(&Node::Sequence(Sequence::new(vec![
        Node::Start(Start::new()),
        terminal("a"),
        Node::Optional(Box::new(Optional::new(terminal("b")))),
        Node::End(regex_railroad::railroad::renderer::End::new()),
    ])));
}

#[test]
fn test_choice_heights() {
    // Two branches of height 3 each: total height 6, entry row 2.
    let choice = Choice::new(vec![terminal("a"), terminal("b")]);
    assert_eq!(choice.height(), 6);
    assert_eq!(choice.entry_height(), 2);

    let group = vec![terminal("a"), terminal("b")];
    assert_eq!(group.total_height(), 6);
    assert_eq!(group.max_entry_height(), 1);
}

#[test]
fn test_sequence_top_padding() {
    // A terminal (entry row 1) after the start cap (entry row 0) pads
    // the already-built diagram's top by one row; the cap's row is kept
    // unchanged apart from the shift and the appended connector.
    let seq = Sequence::new(vec![Node::Start(Start::new()), terminal("a")]);
    let rows = seq.draw();
    assert_eq!(
        rows,
        vec![
            "        ┌───┐".to_string(),
            "START╟──┤ a ├".to_string(),
            "        └───┘".to_string(),
        ]
    );
    assert_eq!(seq.entry_height(), 1);
}

#[test]
fn test_diagram_end_to_end_alternation() {
    // "a|b" becomes a Start/End-wrapped two-branch choice of single
    // character terminals; every row has the same width.
    let mut parser = RegExParser::new(Language::Rust, &"a|b".to_string());
    let ast = parser.parse().unwrap();
    let diagram = RailroadRenderer::generate_diagram(&ast).unwrap();
    let rows = RailroadRenderer::render_diagram(&diagram).unwrap();
    assert_eq!(rows.len(), 6);
    let width = rows[0].chars().count();
    for row in rows.iter() {
        assert_eq!(row.chars().count(), width);
    }
    let all: String = rows.join("\n");
    assert!(all.contains("START╟"));
    assert!(all.contains("╢END"));
    assert!(all.contains("┤ a ├"));
    assert!(all.contains("┤ b ├"));
}

#[test]
fn test_diagram_end_to_end_repetition() {
    // "a{2,4}" renders a repetition wrapping terminal "a" whose bottom
    // bar carries the description " 2-4 ".
    let mut parser = RegExParser::new(Language::Rust, &"a{2,4}".to_string());
    let ast = parser.parse().unwrap();
    let diagram = RailroadRenderer::generate_diagram(&ast).unwrap();
    let rows = RailroadRenderer::render_diagram(&diagram).unwrap();
    let width = rows[0].chars().count();
    for row in rows.iter() {
        assert_eq!(row.chars().count(), width);
    }
    let all: String = rows.join("\n");
    assert!(all.contains("┤ a ├"));
    assert!(all.contains("╰ 2-4 "));
}

#[test]
fn test_diagram_character_class() {
    let mut parser = RegExParser::new(Language::Rust, &"[a-z0-9]".to_string());
    let ast = parser.parse().unwrap();
    let diagram = RailroadRenderer::generate_diagram(&ast).unwrap();
    let rows = RailroadRenderer::render_diagram(&diagram).unwrap();
    let all: String = rows.join("\n");
    assert!(all.contains("One of:"));
    assert!(all.contains("[a-z]"));
    assert!(all.contains("[0-9]"));

    let mut parser = RegExParser::new(Language::Rust, &"[^x]".to_string());
    let ast = parser.parse().unwrap();
    let diagram = RailroadRenderer::generate_diagram(&ast).unwrap();
    let rows = RailroadRenderer::render_diagram(&diagram).unwrap();
    let all: String = rows.join("\n");
    assert!(all.contains("None of:"));
}

#[test]
fn test_generate_rejects_bare_class_member() {
    // A character node whose payload is directly a literal is only valid
    // nested inside a class: generation reports a representation error.
    let tree = RegEx::Character(CharacterType::Terminal('a'));
    assert!(matches!(
        RailroadRenderer::generate_diagram(&tree),
        Err(Error::InvalidParsing)
    ));
}

#[test]
fn test_capture_diagram() {
    let mut parser = RegExParser::new(Language::Rust, &"(?:ab)".to_string());
    let ast = parser.parse().unwrap();
    let diagram = RailroadRenderer::generate_diagram(&ast).unwrap();
    let rows = RailroadRenderer::render_diagram(&diagram).unwrap();
    let width = rows[0].chars().count();
    for row in rows.iter() {
        assert_eq!(row.chars().count(), width);
    }
    let all: String = rows.join("\n");
    assert!(all.contains("Group 1"));
    assert!(all.contains("┤ ab ├"));
}

#[test]
fn test_sequence_builders() {
    let mut seq = Sequence::new(vec![Node::Start(Start::new())]);
    seq.push(terminal("a"));
    let children = seq.into_inner();
    assert_eq!(children.len(), 2);

    let rep = Repetition::new(terminal("x"), RepetitionType::Exactly(3));
    let inner = rep.into_inner();
    assert_eq!(inner.draw(), vec!["┌───┐", "┤ x ├", "└───┘"]);
}
