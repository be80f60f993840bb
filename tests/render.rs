use minilang::node::{Node, NodeType, NodeValue};
use minilang::parser::{parse_expr, ParsingContext};

fn parse(src: &str) -> Node {
    let mut context = ParsingContext::new();
    let mut end = 0;
    parse_expr(&mut context, src, &mut end).unwrap()
}

#[test]
fn to_string_of_leaves() {
    assert_eq!(Node::new(NodeType::Empty, None).to_string(), "NONE");
    assert_eq!(Node::from_integer(69).to_string(), "INT:69");
    assert_eq!(Node::from_integer(-12).to_string(), "INT:-12");
    assert_eq!(Node::from_integer(i64::MIN).to_string(), "INT:-9223372036854775808");
    assert_eq!(Node::from_integer(0).to_string(), "INT:0");
    assert_eq!(Node::from_symbol("abc").to_string(), "SYM:abc");
    assert_eq!(Node::new(NodeType::Integer, None).to_string(), "INT: <no value>");
    assert_eq!(Node::new(NodeType::Program, None).to_string(), "PROGRAM");
}

#[test]
fn to_string_of_statements() {
    assert_eq!(parse("a : integer").to_string(), "VAR DECLARATION: a : integer");
    assert_eq!(parse("a := 420").to_string(), "VAR ASSIGNMENT: a := INT:420");
    assert_eq!(
        parse("defun foo (a:integer, b:integer):integer { }").to_string(),
        "FUNCTION DEFINITION: foo (a: integer, b: integer, ): integer"
    );
}

#[test]
fn print_indents_children() {
    assert_eq!(
        parse("a : integer = 69").print(0),
        "VAR DECLARATION INITIALIZED: a : integer\n    INT:69\n"
    );
    assert_eq!(
        parse("defun f () { x := 1 y : integer }").print(2),
        "  FUNCTION DEFINITION: f (): void\n      VAR ASSIGNMENT: x := INT:1\n      VAR DECLARATION: y : integer\n"
    );
}

#[test]
fn print_lists_every_child_in_order() {
    let mut p = Node::new(NodeType::Program, None);
    let mut expected = String::from("PROGRAM\n");
    for i in 0..4 {
        p.add_child(Node::from_integer(i));
        expected.push_str(&format!("    INT:{}\n", i));
        assert_eq!(p.print(0), expected);
    }
    let mut inner = Node::new(NodeType::Program, None);
    inner.add_child(Node::from_symbol("s"));
    p.add_child(inner);
    expected.push_str("    PROGRAM\n        SYM:s\n");
    assert_eq!(p.print(0), expected);
    assert_eq!(p.children.len(), 5);
    assert!(matches!(&p.children[4].value, None));
    assert!(matches!(&p.children[4].children[0].value, Some(NodeValue::Symbol(s)) if s == "s"));
}

#[test]
fn to_string_shows_children_and_body_in_order() {
    assert_eq!(
        parse("a : integer = 69").to_string(),
        "VAR DECLARATION INITIALIZED: a : integer [INT:69]"
    );
    assert_eq!(
        parse("defun f () { x := 1 y : integer }").to_string(),
        "FUNCTION DEFINITION: f (): void [VAR ASSIGNMENT: x := INT:1] [VAR DECLARATION: y : integer]"
    );
    let mut p = Node::new(NodeType::Program, None);
    assert_eq!(p.to_string(), "PROGRAM");
    p.add_child(Node::from_symbol("abcdefgh"));
    assert_eq!(p.to_string(), "PROGRAM [SYM:abcdefgh]");
    let mut inner = Node::new(NodeType::Program, None);
    inner.add_child(Node::from_integer(1));
    inner.add_child(Node::from_integer(2));
    p.add_child(inner);
    assert_eq!(p.to_string(), "PROGRAM [SYM:abcdefgh] [PROGRAM [INT:1] [INT:2]]");
    assert!(!p.to_string().contains('\n'));
}
