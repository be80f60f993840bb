use minilang::environment::Environment;
use minilang::error::Error;
use minilang::node::{Node, NodeValue};

fn int_of(n: Option<&Node>) -> Option<i64> {
    match n {
        Some(Node { value: Some(NodeValue::Integer(v)), .. }) => Some(*v),
        _ => None,
    }
}

#[test]
fn set_then_get() {
    let mut env = Environment::new(None);
    assert!(env.set(&Node::from_symbol("a"), Node::from_integer(1)).is_ok());
    assert_eq!(int_of(env.get(&Node::from_symbol("a"))), Some(1));
    assert!(env.get(&Node::from_symbol("b")).is_none());
}

#[test]
fn set_overwrites() {
    let mut env = Environment::new(None);
    env.set(&Node::from_symbol("a"), Node::from_integer(1)).unwrap();
    env.set(&Node::from_symbol("a"), Node::from_integer(2)).unwrap();
    assert_eq!(int_of(env.get(&Node::from_symbol("a"))), Some(2));
    assert_eq!(env.bind.len(), 1);
}

#[test]
fn non_symbol_key_is_refused() {
    let mut env = Environment::new(None);
    assert!(matches!(env.set(&Node::from_integer(1), Node::from_integer(1)), Err(Error::InvalidKeyType)));
    assert!(env.get(&Node::from_integer(1)).is_none());
    assert_eq!(env.bind.len(), 0);
}

#[test]
fn get_walks_to_parent_and_inner_shadows() {
    let mut outer = Environment::new(None);
    outer.set(&Node::from_symbol("x"), Node::from_integer(1)).unwrap();
    outer.set(&Node::from_symbol("y"), Node::from_integer(2)).unwrap();
    let mut inner = Environment::new(Some(Box::new(outer)));
    inner.set(&Node::from_symbol("x"), Node::from_integer(10)).unwrap();
    assert_eq!(int_of(inner.get(&Node::from_symbol("x"))), Some(10));
    assert_eq!(int_of(inner.get(&Node::from_symbol("y"))), Some(2));
    assert!(inner.get(&Node::from_symbol("z")).is_none());
    let parent = inner.parent.as_ref().unwrap();
    assert_eq!(int_of(parent.get(&Node::from_symbol("x"))), Some(1));
}
