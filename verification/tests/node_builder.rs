use recipemd::RecipeParser;
use recipemd::Span;
use recipemd::ast::{Node, NodeKind};

fn span(start: usize, end: usize) -> Span {
    Span::new(start, end)
}

fn text(s: &str, start: usize, end: usize) -> Node {
    Node { kind: NodeKind::Text(s.to_string()), span: span(start, end) }
}

#[test]
fn parse_heading() {
    assert_eq!(
        RecipeParser::new("# A recipe title\n").parse_node(),
        Some(Node {
            kind: NodeKind::Heading { level: 1, children: vec![text("A recipe title", 2, 16)] },
            span: span(0, 17),
        })
    );
}

#[test]
fn parse_paragraph() {
    assert_eq!(
        RecipeParser::new("Hello World!").parse_node(),
        Some(Node {
            kind: NodeKind::Paragraph(vec![text("Hello World!", 0, 12)]),
            span: span(0, 12),
        })
    );
}

#[test]
fn parse_emphasis_strong() {
    assert_eq!(
        RecipeParser::new("*emphasis*").parse_node(),
        Some(Node {
            kind: NodeKind::Paragraph(vec![Node {
                kind: NodeKind::Emphasis(vec![text("emphasis", 1, 9)]),
                span: span(0, 10),
            }]),
            span: span(0, 10),
        })
    );
    assert_eq!(
        RecipeParser::new("**strong**").parse_node(),
        Some(Node {
            kind: NodeKind::Paragraph(vec![Node {
                kind: NodeKind::Strong(vec![text("strong", 2, 8)]),
                span: span(0, 10),
            }]),
            span: span(0, 10),
        })
    );
}

#[test]
fn parse_list() {
    assert_eq!(
        RecipeParser::new("- first\n- second\n- third\n").parse_node(),
        Some(Node {
            kind: NodeKind::List(vec![
                Node {
                    kind: NodeKind::ListItem(vec![text("first", 2, 7)]),
                    span: span(0, 8),
                },
                Node {
                    kind: NodeKind::ListItem(vec![text("second", 10, 16)]),
                    span: span(8, 17),
                },
                Node {
                    kind: NodeKind::ListItem(vec![text("third", 19, 24)]),
                    span: span(17, 25),
                },
            ]),
            span: span(0, 25),
        })
    );
}

#[test]
fn parse_horizontal_line() {
    assert_eq!(
        RecipeParser::new("---").parse_node(),
        Some(Node { kind: NodeKind::HorizontalLine, span: span(0, 3) })
    );
}

#[test]
fn parse_link() {
    assert_eq!(
        RecipeParser::new("[Example](https://example.org)").parse_node(),
        Some(Node {
            kind: NodeKind::Paragraph(vec![Node {
                kind: NodeKind::Link {
                    destination: "https://example.org".to_string(),
                    children: vec![text("Example", 1, 8)],
                },
                span: span(0, 30),
            }]),
            span: span(0, 30),
        })
    );
}
