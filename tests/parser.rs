use minilang::error::Error;
use minilang::lexer::Token;
use minilang::node::{Node, NodeType, NodeValue};
use minilang::parser::{parse_expr, parse_integer, ParsingContext};

fn parse(src: &str) -> (Result<Node, Error>, usize) {
    let mut context = ParsingContext::new();
    let mut end = 0;
    let r = parse_expr(&mut context, src, &mut end);
    (r, end)
}

fn int_value(n: &Node) -> Option<i64> {
    match &n.value {
        Some(NodeValue::Integer(v)) if n.node_type == NodeType::Integer => Some(*v),
        _ => None,
    }
}

#[test]
fn context_knows_integer_only() {
    let c = ParsingContext::new();
    assert!(c.types.get(&Node::from_symbol("integer")).is_some());
    assert!(c.types.get(&Node::from_symbol("void")).is_none());
    assert!(c.variables.bind.is_empty());
}

#[test]
fn parse_integer_reads_signed_decimal() {
    let src = "12 -5 +7 0 9223372036854775807 -9223372036854775808 9223372036854775808 1a - x";
    let expect = [Some(12), Some(-5), Some(7), Some(0), Some(i64::MAX), Some(i64::MIN), None, None, None, None];
    let mut t = Token::new(0, 0);
    for e in expect.iter() {
        minilang::lexer::lex(src, &mut t).unwrap();
        let r = parse_integer(&t, src);
        assert_eq!(r.ok().and_then(|n| int_value(&n)), *e);
        t.beginning = t.end;
    }
}

#[test]
fn integer_statement() {
    let (r, end) = parse("  420 ");
    assert_eq!(int_value(&r.unwrap()), Some(420));
    assert_eq!(end, 5);
}

#[test]
fn declaration_initialized() {
    let (r, end) = parse("a : integer = 69");
    let n = r.unwrap();
    assert_eq!(n.node_type, NodeType::VariableDeclarationInitialized);
    match &n.value {
        Some(NodeValue::VariableDeclaration { name, var_type }) => {
            assert_eq!(name, "a");
            assert_eq!(var_type, "integer");
        }
        _ => panic!("wrong payload"),
    }
    assert_eq!(n.children.len(), 1);
    assert_eq!(int_value(&n.children[0]), Some(69));
    assert_eq!(end, 16);
}

#[test]
fn assignment() {
    let (r, end) = parse("a := 420");
    let n = r.unwrap();
    assert_eq!(n.node_type, NodeType::VariableAssignment);
    match &n.value {
        Some(NodeValue::VariableAssignment { name, value }) => {
            assert_eq!(name, "a");
            assert_eq!(int_value(value), Some(420));
        }
        _ => panic!("wrong payload"),
    }
    assert!(n.children.is_empty());
    assert_eq!(end, 8);
}

#[test]
fn declaration_without_initializer() {
    let (r, end) = parse("b : integer");
    let n = r.unwrap();
    assert_eq!(n.node_type, NodeType::VariableDeclaration);
    match &n.value {
        Some(NodeValue::VariableDeclaration { name, var_type }) => {
            assert_eq!(name, "b");
            assert_eq!(var_type, "integer");
        }
        _ => panic!("wrong payload"),
    }
    assert!(n.children.is_empty());
    assert_eq!(end, 11);
}

#[test]
fn unknown_type_is_a_type_error() {
    let (r, end) = parse("x : bogus");
    match r {
        Err(Error::TypeError(t)) => assert_eq!(t, "bogus"),
        _ => panic!("expected a type error"),
    }
    assert_eq!(end, 0);
}

#[test]
fn function_definition() {
    let (r, end) = parse("defun foo (a:integer, b:integer):integer { }");
    let n = r.unwrap();
    assert_eq!(n.node_type, NodeType::FunctionDefinition);
    match &n.value {
        Some(NodeValue::FunctionDefinition { name, params, return_type, body }) => {
            assert_eq!(name, "foo");
            assert_eq!(
                params,
                &vec![
                    ("a".to_string(), "integer".to_string()),
                    ("b".to_string(), "integer".to_string())
                ]
            );
            assert_eq!(return_type, "integer");
            assert!(body.is_empty());
        }
        _ => panic!("wrong payload"),
    }
    assert_eq!(end, 44);
}

#[test]
fn function_with_body_and_default_return_type() {
    let (r, _) = parse("defun f () { x : integer = 1 y := 2 }");
    let n = r.unwrap();
    match &n.value {
        Some(NodeValue::FunctionDefinition { name, params, return_type, body }) => {
            assert_eq!(name, "f");
            assert!(params.is_empty());
            assert_eq!(return_type, "void");
            assert_eq!(body.len(), 2);
            assert_eq!(body[0].node_type, NodeType::VariableDeclarationInitialized);
            assert_eq!(body[1].node_type, NodeType::VariableAssignment);
        }
        _ => panic!("wrong payload"),
    }
}

#[test]
fn function_without_parameter_list() {
    let (r, _) = parse("defun g : integer { 5 }");
    match &r.unwrap().value {
        Some(NodeValue::FunctionDefinition { params, return_type, body, .. }) => {
            assert!(params.is_empty());
            assert_eq!(return_type, "integer");
            assert_eq!(int_value(&body[0]), Some(5));
        }
        _ => panic!("wrong payload"),
    }
}

#[test]
fn empty_input_is_exhausted() {
    assert!(matches!(parse("").0, Err(Error::LexExhausted)));
    assert!(matches!(parse("   \n").0, Err(Error::LexExhausted)));
}

#[test]
fn truncated_input_is_a_syntax_error() {
    for src in ["a", "a :", "a : integer =", "a :=", "defun", "defun f", "defun f (a", "defun f (a:integer", "defun f {", "defun f ( a : integer ) : integer"] {
        match parse(src).0 {
            Err(Error::SyntaxError(t)) => assert_eq!(t, "", "{}", src),
            _ => panic!("expected a syntax error for {:?}", src),
        }
    }
}

#[test]
fn unrecognized_token_is_a_syntax_error() {
    match parse("a + b").0 {
        Err(Error::SyntaxError(t)) => assert_eq!(t, "+"),
        _ => panic!("expected a syntax error"),
    }
    match parse("defun f x").0 {
        Err(Error::SyntaxError(t)) => assert_eq!(t, "x"),
        _ => panic!("expected a syntax error"),
    }
}

#[test]
fn successive_statements_share_the_cursor() {
    let src = "a : integer = 1\nb := 2\n";
    let mut context = ParsingContext::new();
    let mut end = 0;
    let first = parse_expr(&mut context, src, &mut end).unwrap();
    assert_eq!(first.node_type, NodeType::VariableDeclarationInitialized);
    let second = parse_expr(&mut context, src, &mut end).unwrap();
    assert_eq!(second.node_type, NodeType::VariableAssignment);
    assert!(matches!(parse_expr(&mut context, src, &mut end), Err(Error::LexExhausted)));
}

#[test]
fn program_holds_every_statement_in_order() {
    let src = "a : integer = 1\nb : integer\na := 2\n";
    let mut context = ParsingContext::new();
    let p = minilang::parser::parse_program(&mut context, src).unwrap();
    assert_eq!(p.node_type, NodeType::Program);
    let kinds: Vec<NodeType> = p.children.iter().map(|c| c.node_type).collect();
    assert_eq!(
        kinds,
        vec![NodeType::VariableDeclarationInitialized, NodeType::VariableDeclaration, NodeType::VariableAssignment]
    );
}

#[test]
fn program_of_empty_source_is_empty() {
    let mut context = ParsingContext::new();
    let p = minilang::parser::parse_program(&mut context, "  \n").unwrap();
    assert_eq!(p.node_type, NodeType::Program);
    assert!(p.children.is_empty());
}

#[test]
fn program_stops_at_first_error() {
    let mut context = ParsingContext::new();
    match minilang::parser::parse_program(&mut context, "a : integer\nx : bogus\nb := 1") {
        Err(Error::TypeError(t)) => assert_eq!(t, "bogus"),
        _ => panic!("expected a type error"),
    }
}

#[test]
fn function_and_parameter_names_must_be_symbols() {
    for (src, tok) in [
        ("defun 5 { }", "5"),
        ("defun ( ) { }", "("),
        ("defun f (5:integer) { }", "5"),
        ("defun f (a:integer, ,) { }", ","),
    ] {
        match parse(src).0 {
            Err(Error::SyntaxError(t)) => assert_eq!(t, tok, "{}", src),
            _ => panic!("expected a syntax error for {:?}", src),
        }
    }
}
