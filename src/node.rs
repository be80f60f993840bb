use vstd::prelude::*;

verus! {

/// The kind of a node.
#[derive(Debug, Clone, Copy, PartialEq, Eq, Structural)]
pub enum NodeType {
    Empty,
    Integer,
    Symbol,
    VariableDeclaration,
    VariableDeclarationInitialized,
    VariableAssignment,
    FunctionDefinition,
    Program,
}

/// The payload of a node, one shape per kind that carries one.
#[derive(Debug)]
pub enum NodeValue {
    Integer(i64),
    Symbol(String),
    VariableDeclaration { name: String, var_type: String },
    VariableAssignment { name: String, value: Box<Node> },
    FunctionDefinition {
        name: String,
        params: Vec<(String, String)>,
        return_type: String,
        body: Vec<Node>,
    },
}

/// A syntax tree node: its kind, its payload and its ordered children, which it owns.
#[derive(Debug)]
pub struct Node {
    pub node_type: NodeType,
    pub value: Option<NodeValue>,
    pub children: Vec<Node>,
}

/// The model of a payload: strings as characters, vectors as sequences.
pub enum ValueModel {
    Integer(i64),
    Symbol(Seq<char>),
    VariableDeclaration { name: Seq<char>, var_type: Seq<char> },
    VariableAssignment { name: Seq<char>, value: Box<NodeModel> },
    FunctionDefinition {
        name: Seq<char>,
        params: Seq<(Seq<char>, Seq<char>)>,
        return_type: Seq<char>,
        body: Seq<NodeModel>,
    },
}

/// The model of a node.
pub struct NodeModel {
    pub node_type: NodeType,
    pub value: Option<ValueModel>,
    pub children: Seq<NodeModel>,
}

/// The models of a sequence of nodes, in order.
pub open spec fn nodes_view(s: Seq<Node>) -> Seq<NodeModel>
    decreases s,
{
    Seq::new(
        s.len(),
        |i: int|
            if 0 <= i < s.len() {
                node_view(s[i])
            } else {
                NodeModel { node_type: NodeType::Empty, value: None, children: seq![] }
            },
    )
}

/// The models of a list of `(name, type)` pairs.
pub open spec fn params_view(p: Seq<(String, String)>) -> Seq<(Seq<char>, Seq<char>)> {
    p.map_values(|q: (String, String)| (q.0@, q.1@))
}

/// The model of a payload.
pub open spec fn value_view(v: NodeValue) -> ValueModel
    decreases v,
{
    match v {
        NodeValue::Integer(i) => ValueModel::Integer(i),
        NodeValue::Symbol(s) => ValueModel::Symbol(s@),
        NodeValue::VariableDeclaration { name, var_type } => ValueModel::VariableDeclaration {
            name: name@,
            var_type: var_type@,
        },
        NodeValue::VariableAssignment { name, value } => ValueModel::VariableAssignment {
            name: name@,
            value: Box::new(node_view(*value)),
        },
        NodeValue::FunctionDefinition { name, params, return_type, body } =>
            ValueModel::FunctionDefinition {
            name: name@,
            params: params_view(params@),
            return_type: return_type@,
            body: nodes_view(body@),
        },
    }
}

/// The model of a node: strings become their characters, vectors sequences.
pub open spec fn node_view(n: Node) -> NodeModel
    decreases n,
{
    NodeModel {
        node_type: n.node_type,
        value: match n.value {
            None => None,
            Some(v) => Some(value_view(v)),
        },
        children: nodes_view(n.children@),
    }
}

impl View for Node {
    type V = NodeModel;

    open spec fn view(&self) -> NodeModel {
        node_view(*self)
    }
}

/// The model of a node without children.
pub open spec fn leaf(node_type: NodeType, value: Option<ValueModel>) -> NodeModel {
    NodeModel { node_type, value, children: seq![] }
}

impl Node {
    pub fn new(node_type: NodeType, value: Option<NodeValue>) -> (r: Node)
        ensures
            r.node_type == node_type,
            r.value == value,
            r.children@.len() == 0,
            r@ == leaf(
                node_type,
                match value {
                    None => None,
                    Some(v) => Some(value_view(v)),
                },
            ),
    {
        let r = Node { node_type, value, children: Vec::new() };
        assert(nodes_view(r.children@) =~= seq![]);
        r
    }

    /// Appends `new_child` after the node's present children.
    pub fn add_child(&mut self, new_child: Node)
        ensures
            final(self).node_type == old(self).node_type,
            final(self).value == old(self).value,
            final(self).children@ == old(self).children@.push(new_child),
            final(self)@ == (NodeModel {
                children: old(self)@.children.push(new_child@),
                ..old(self)@
            }),
    {
        self.children.push(new_child);
        proof {
            assert(nodes_view(self.children@) =~= nodes_view(old(self).children@).push(
                node_view(new_child),
            ));
        }
    }

    pub fn from_integer(value: i64) -> (r: Node)
        ensures
            r@ == leaf(NodeType::Integer, Some(ValueModel::Integer(value))),
    {
        Node::new(NodeType::Integer, Some(NodeValue::Integer(value)))
    }

    pub fn from_symbol(symbol: &str) -> (r: Node)
        ensures
            r@ == leaf(NodeType::Symbol, Some(ValueModel::Symbol(symbol@))),
    {
        Node::new(NodeType::Symbol, Some(NodeValue::Symbol(symbol.to_owned())))
    }

    pub fn from_symbol_buffer(buffer: &str) -> (r: Node)
        ensures
            r@ == leaf(NodeType::Symbol, Some(ValueModel::Symbol(buffer@))),
    {
        Node::from_symbol(buffer)
    }

    /// Structural equality, as `same` states it: None equals None, an Integer or a Symbol
    /// compares by its payload, and every other kind by its payload and its children, in order.
    pub fn compare(a: &Node, b: &Node) -> (r: bool)
        ensures
            r == same(a@, b@),
        decreases a,
    {
        if a.node_type != b.node_type {
            return false;
        }
        match a.node_type {
            NodeType::Empty => true,
            NodeType::Integer | NodeType::Symbol => compare_payloads(&a.value, &b.value),
            _ => compare_payloads(&a.value, &b.value) && compare_all(&a.children, &b.children),
        }
    }
}

/// The kinds whose nodes have no sub-nodes.
pub open spec fn is_leaf_kind(t: NodeType) -> bool {
    t == NodeType::Empty || t == NodeType::Integer || t == NodeType::Symbol
}

/// The model of an optional payload.
pub open spec fn payload_view(o: Option<NodeValue>) -> Option<ValueModel> {
    match o {
        None => None,
        Some(v) => Some(value_view(v)),
    }
}

/// Structural equality of two trees: None equals None; an Integer or a Symbol compares by its
/// payload alone; every other kind by its payload and then its children, in order.
pub open spec fn same(a: NodeModel, b: NodeModel) -> bool
    decreases a, 1int,
{
    if a.node_type != b.node_type {
        false
    } else if a.node_type == NodeType::Empty {
        true
    } else if is_leaf_kind(a.node_type) {
        same_value(a.value, b.value)
    } else {
        same_value(a.value, b.value) && same_all(a.children, b.children)
    }
}

/// Equality of payloads, comparing the trees they hold with `same`.
pub open spec fn same_value(x: Option<ValueModel>, y: Option<ValueModel>) -> bool
    decreases x, 0int,
{
    match x {
        None => y is None,
        Some(u) => match u {
            ValueModel::VariableAssignment { name, value } => match y {
                Some(ValueModel::VariableAssignment { name: name2, value: value2 }) => name == name2
                    && same(*value, *value2),
                _ => false,
            },
            ValueModel::FunctionDefinition { name, params, return_type, body } => match y {
                Some(
                    ValueModel::FunctionDefinition {
                        name: name2,
                        params: params2,
                        return_type: return_type2,
                        body: body2,
                    },
                ) => name == name2 && params == params2 && return_type == return_type2 && same_all(
                    body,
                    body2,
                ),
                _ => false,
            },
            _ => y == Some(u),
        },
    }
}

/// Element-wise `same` of two sequences of trees of equal length.
pub open spec fn same_all(s: Seq<NodeModel>, t: Seq<NodeModel>) -> bool
    decreases s, 0int,
{
    if s.len() != t.len() {
        false
    } else if s.len() == 0 {
        true
    } else {
        same_all(s.subrange(0, s.len() - 1), t.subrange(0, t.len() - 1)) && same(
            s[s.len() - 1],
            t[t.len() - 1],
        )
    }
}

proof fn lemma_same_all_prefix(s: Seq<NodeModel>, t: Seq<NodeModel>, k: int)
    requires
        0 <= k <= s.len(),
        same_all(s, t),
    ensures
        same_all(s.subrange(0, k), t.subrange(0, k)),
    decreases s.len(),
{
    if k < s.len() {
        let s1 = s.subrange(0, s.len() - 1);
        let t1 = t.subrange(0, t.len() - 1);
        lemma_same_all_prefix(s1, t1, k);
        assert(s1.subrange(0, k) =~= s.subrange(0, k));
        assert(t1.subrange(0, k) =~= t.subrange(0, k));
    } else {
        assert(s.subrange(0, k) =~= s);
        assert(t.subrange(0, k) =~= t);
    }
}

/// Every tree is `same` as itself.
pub proof fn lemma_same_reflexive(n: NodeModel)
    ensures
        same(n, n),
    decreases n, 1int,
{
    lemma_same_value_reflexive(n.value);
    lemma_same_all_reflexive(n.children);
}

proof fn lemma_same_value_reflexive(x: Option<ValueModel>)
    ensures
        same_value(x, x),
    decreases x, 0int,
{
    match x {
        Some(u) => match u {
            ValueModel::VariableAssignment { name, value } => {
                lemma_same_reflexive(*value);
            },
            ValueModel::FunctionDefinition { name, params, return_type, body } => {
                lemma_same_all_reflexive(body);
            },
            _ => {},
        },
        None => {},
    }
}

proof fn lemma_same_all_reflexive(s: Seq<NodeModel>)
    ensures
        same_all(s, s),
    decreases s, 0int,
{
    if s.len() > 0 {
        lemma_same_all_reflexive(s.subrange(0, s.len() - 1));
        lemma_same_reflexive(s[s.len() - 1]);
    }
}

/// What `compare` returns: every node compares equal to itself; nodes of different kinds
/// never do; two None nodes always do; two Integers, or two Symbols, do exactly when their
/// values are equal, whatever else they hold.
pub proof fn lemma_compare_laws(a: NodeModel, b: NodeModel)
    ensures
        same(a, a),
        a.node_type != b.node_type ==> !same(a, b),
        a.node_type == NodeType::Empty && b.node_type == NodeType::Empty ==> same(a, b),
        forall|x: i64, y: i64|
            a.node_type == NodeType::Integer && b.node_type == NodeType::Integer && a.value
                == Some(ValueModel::Integer(x)) && b.value == Some(ValueModel::Integer(y)) ==> (
            same(a, b) <==> x == y),
        forall|x: Seq<char>, y: Seq<char>|
            a.node_type == NodeType::Symbol && b.node_type == NodeType::Symbol && a.value
                == Some(ValueModel::Symbol(x)) && b.value == Some(ValueModel::Symbol(y)) ==> (
            same(a, b) <==> x == y),
{
    lemma_same_reflexive(a);
}

fn compare_strings(x: &String, y: &String) -> (r: bool)
    ensures
        r == (x@ == y@),
{
    x.eq(y)
}

fn compare_payloads(x: &Option<NodeValue>, y: &Option<NodeValue>) -> (r: bool)
    ensures
        r == same_value(payload_view(*x), payload_view(*y)),
    decreases x,
{
    match (x, y) {
        (None, None) => true,
        (Some(u), Some(v)) => compare_values(u, v),
        _ => false,
    }
}

fn compare_values(x: &NodeValue, y: &NodeValue) -> (r: bool)
    ensures
        r == same_value(Some(value_view(*x)), Some(value_view(*y))),
    decreases x,
{
    match (x, y) {
        (NodeValue::Integer(i), NodeValue::Integer(j)) => *i == *j,
        (NodeValue::Symbol(s), NodeValue::Symbol(t)) => compare_strings(s, t),
        (
            NodeValue::VariableDeclaration { name: n1, var_type: t1 },
            NodeValue::VariableDeclaration { name: n2, var_type: t2 },
        ) => compare_strings(n1, n2) && compare_strings(t1, t2),
        (
            NodeValue::VariableAssignment { name: n1, value: v1 },
            NodeValue::VariableAssignment { name: n2, value: v2 },
        ) => compare_strings(n1, n2) && Node::compare(v1, v2),
        (
            NodeValue::FunctionDefinition { name: n1, params: p1, return_type: r1, body: b1 },
            NodeValue::FunctionDefinition { name: n2, params: p2, return_type: r2, body: b2 },
        ) => compare_strings(n1, n2) && compare_params(p1, p2) && compare_strings(r1, r2)
            && compare_all(b1, b2),
        _ => false,
    }
}

fn compare_params(xs: &Vec<(String, String)>, ys: &Vec<(String, String)>) -> (r: bool)
    ensures
        r == (params_view(xs@) == params_view(ys@)),
{
    if xs.len() != ys.len() {
        assert(params_view(xs@).len() != params_view(ys@).len());
        return false;
    }
    let mut i: usize = 0;
    while i < xs.len()
        invariant
            xs.len() == ys.len(),
            i <= xs.len(),
            forall|k: int| 0 <= k < i ==> params_view(xs@)[k] == params_view(ys@)[k],
        decreases xs.len() - i,
    {
        if !compare_strings(&xs[i].0, &ys[i].0) || !compare_strings(&xs[i].1, &ys[i].1) {
            assert(params_view(xs@)[i as int] != params_view(ys@)[i as int]);
            return false;
        }
        i = i + 1;
    }
    assert(params_view(xs@) =~= params_view(ys@));
    true
}

fn compare_all(xs: &Vec<Node>, ys: &Vec<Node>) -> (r: bool)
    ensures
        r == same_all(nodes_view(xs@), nodes_view(ys@)),
    decreases xs,
{
    let ghost s = nodes_view(xs@);
    let ghost t = nodes_view(ys@);
    if xs.len() != ys.len() {
        return false;
    }
    let mut i: usize = 0;
    while i < xs.len()
        invariant
            xs.len() == ys.len(),
            i <= xs.len(),
            s == nodes_view(xs@),
            t == nodes_view(ys@),
            same_all(s.subrange(0, i as int), t.subrange(0, i as int)),
        decreases xs.len() - i,
    {
        proof {
            assert(decreases_to!(*xs => xs@[i as int]));
        }
        let ghost s1 = s.subrange(0, i + 1);
        let ghost t1 = t.subrange(0, i + 1);
        proof {
            assert(s1.subrange(0, i as int) =~= s.subrange(0, i as int));
            assert(t1.subrange(0, i as int) =~= t.subrange(0, i as int));
        }
        if !Node::compare(&xs[i], &ys[i]) {
            proof {
                if same_all(s, t) {
                    lemma_same_all_prefix(s, t, i + 1);
                }
            }
            return false;
        }
        i = i + 1;
    }
    assert(s.subrange(0, xs.len() as int) =~= s);
    assert(t.subrange(0, ys.len() as int) =~= t);
    true
}

} // verus!
