use minilang::node::{Node, NodeType, NodeValue};

#[test]
fn compare_is_reflexive_on_leaves() {
    let leaves = vec![
        Node::new(NodeType::Empty, None),
        Node::from_integer(-7),
        Node::from_symbol("x"),
    ];
    for n in &leaves {
        assert!(Node::compare(n, n));
    }
}

#[test]
fn compare_differs_across_variants() {
    let leaves = vec![
        Node::new(NodeType::Empty, None),
        Node::from_integer(0),
        Node::from_symbol("0"),
    ];
    for (i, a) in leaves.iter().enumerate() {
        for (j, b) in leaves.iter().enumerate() {
            assert_eq!(Node::compare(a, b), i == j);
        }
    }
}

#[test]
fn compare_integers_and_symbols_by_value() {
    assert!(Node::compare(&Node::from_integer(42), &Node::from_integer(42)));
    assert!(!Node::compare(&Node::from_integer(42), &Node::from_integer(43)));
    assert!(Node::compare(&Node::from_symbol("ab"), &Node::from_symbol_buffer("ab")));
    assert!(!Node::compare(&Node::from_symbol("ab"), &Node::from_symbol("abc")));
}

#[test]
fn compare_walks_children_in_order() {
    let mut a = Node::new(NodeType::Program, None);
    a.add_child(Node::from_integer(1));
    a.add_child(Node::from_integer(2));
    let mut b = Node::new(NodeType::Program, None);
    b.add_child(Node::from_integer(1));
    b.add_child(Node::from_integer(2));
    let mut c = Node::new(NodeType::Program, None);
    c.add_child(Node::from_integer(2));
    c.add_child(Node::from_integer(1));
    assert!(Node::compare(&a, &b));
    assert!(!Node::compare(&a, &c));
}

#[test]
fn add_child_keeps_every_child_in_order() {
    let mut p = Node::new(NodeType::Program, None);
    for i in 0..5 {
        p.add_child(Node::from_integer(i));
    }
    assert_eq!(p.children.len(), 5);
    for (i, c) in p.children.iter().enumerate() {
        assert!(matches!(c.value, Some(NodeValue::Integer(v)) if v == i as i64));
    }
}

#[test]
fn compare_leaves_by_payload_alone() {
    let mut a = Node::from_integer(5);
    a.add_child(Node::from_integer(1));
    assert!(Node::compare(&a, &Node::from_integer(5)));
    assert!(!Node::compare(&a, &Node::from_integer(6)));
    let mut s = Node::from_symbol("x");
    s.add_child(Node::from_symbol("y"));
    assert!(Node::compare(&s, &Node::from_symbol("x")));
    let mut e = Node::new(NodeType::Empty, None);
    e.add_child(Node::from_integer(1));
    assert!(Node::compare(&e, &Node::new(NodeType::Empty, None)));
}
