use vstd::prelude::*;
use vstd::string::*;

use crate::node::{nodes_view, Node, NodeModel, NodeType, NodeValue, ValueModel};

verus! {

pub open spec fn digit_char(d: int) -> char {
    seq!['0', '1', '2', '3', '4', '5', '6', '7', '8', '9'][d]
}

/// The decimal digits of a natural number, most significant first.
pub open spec fn nat_text(n: nat) -> Seq<char>
    decreases n,
{
    if n < 10 {
        seq![digit_char(n as int)]
    } else {
        nat_text(n / 10) + seq![digit_char((n % 10) as int)]
    }
}

/// An integer in base 10, with `-` before a negative one.
pub open spec fn int_text(v: int) -> Seq<char> {
    if v < 0 {
        seq!['-'] + nat_text((-v) as nat)
    } else {
        nat_text(v as nat)
    }
}

/// `name: type, ` for each parameter, in order.
pub open spec fn params_text(ps: Seq<(Seq<char>, Seq<char>)>) -> Seq<char>
    decreases ps.len(),
{
    if ps.len() == 0 {
        seq![]
    } else {
        params_text(ps.drop_last()) + ps.last().0 + ": "@ + ps.last().1 + ", "@
    }
}

/// The text of a node itself, without its children.
pub open spec fn head(n: NodeModel) -> Seq<char>
    decreases n, 0int,
{
    match n.node_type {
        NodeType::Empty => "NONE"@,
        NodeType::Integer => match n.value {
            Some(ValueModel::Integer(v)) => "INT:"@ + int_text(v as int),
            _ => "INT: <no value>"@,
        },
        NodeType::Symbol => match n.value {
            Some(ValueModel::Symbol(s)) => "SYM:"@ + s,
            _ => "SYM: <no value>"@,
        },
        NodeType::VariableDeclaration => match n.value {
            Some(ValueModel::VariableDeclaration { name, var_type }) => "VAR DECLARATION: "@
                + name + " : "@ + var_type,
            _ => "VAR DECLARATION: <no value>"@,
        },
        NodeType::VariableDeclarationInitialized => match n.value {
            Some(ValueModel::VariableDeclaration { name, var_type }) =>
                "VAR DECLARATION INITIALIZED: "@ + name + " : "@ + var_type,
            _ => "VAR DECLARATION INITIALIZED: <no value>"@,
        },
        NodeType::VariableAssignment => match n.value {
            Some(ValueModel::VariableAssignment { name, value }) => "VAR ASSIGNMENT: "@ + name
                + " := "@ + line_text(*value),
            _ => "VAR ASSIGNMENT: <no value>"@,
        },
        NodeType::FunctionDefinition => match n.value {
            Some(ValueModel::FunctionDefinition { name, params, return_type, body }) =>
                "FUNCTION DEFINITION: "@ + name + " ("@ + params_text(params) + "): "@
                + return_type,
            _ => "FUNCTION DEFINITION: <no value>"@,
        },
        NodeType::Program => "PROGRAM"@,
    }
}

/// The single-line form of a node: its own text, then a function's body statements and then
/// its children, each as ` [...]`, in order.
pub open spec fn line_text(n: NodeModel) -> Seq<char>
    decreases n, 1int,
{
    let body_text = match n.value {
        Some(ValueModel::FunctionDefinition { body, .. }) if n.node_type
            == NodeType::FunctionDefinition => all_line(body),
        _ => seq![],
    };
    head(n) + body_text + all_line(n.children)
}

/// The single-line forms of several nodes, each as ` [...]`, in order.
pub open spec fn all_line(s: Seq<NodeModel>) -> Seq<char>
    decreases s, 0int,
{
    if s.len() == 0 {
        seq![]
    } else {
        all_line(s.subrange(0, s.len() - 1)) + " ["@ + line_text(s[s.len() - 1]) + "]"@
    }
}

/// The indentation one level deeper.
pub open spec fn deeper(indent: nat) -> nat {
    if indent + 4 > usize::MAX {
        usize::MAX as nat
    } else {
        indent + 4
    }
}

pub open spec fn spaces(n: nat) -> Seq<char> {
    Seq::new(n, |i: int| ' ')
}

/// The indented form of a node: its line, then a function's body statements and then its
/// children, each one level deeper.
pub open spec fn print_text(n: NodeModel, indent: nat) -> Seq<char>
    decreases n,
{
    let body_text = match n.value {
        Some(ValueModel::FunctionDefinition { body, .. }) if n.node_type
            == NodeType::FunctionDefinition => all_text(body, deeper(indent)),
        _ => seq![],
    };
    spaces(indent) + head(n) + seq!['\n'] + body_text + all_text(n.children, deeper(indent))
}

/// The indented forms of several nodes, in order.
pub open spec fn all_text(s: Seq<NodeModel>, indent: nat) -> Seq<char>
    decreases s,
{
    if s.len() == 0 {
        seq![]
    } else {
        all_text(s.subrange(0, s.len() - 1), indent) + print_text(s[s.len() - 1], indent)
    }
}

/// Adding a child appends exactly that child's single-line form, in brackets, to the node's
/// single-line form: every child is shown, in the order in which it was added.
pub proof fn lemma_line_add_child(n: NodeModel, c: NodeModel)
    ensures
        line_text(NodeModel { children: n.children.push(c), ..n }) == line_text(n) + " ["@
            + line_text(c) + "]"@,
{
    let m = NodeModel { children: n.children.push(c), ..n };
    let s = m.children;
    assert(s.subrange(0, s.len() - 1) =~= n.children);
    assert(head(m) == head(n));
    assert(line_text(m) =~= line_text(n) + " ["@ + line_text(c) + "]"@);
}

/// Adding a child appends exactly that child's indented form, one level deeper, to the
/// node's indented form: every child is printed, in the order in which it was added, however
/// many there are.
pub proof fn lemma_print_add_child(n: NodeModel, c: NodeModel, indent: nat)
    ensures
        print_text(NodeModel { children: n.children.push(c), ..n }, indent) == print_text(n, indent)
            + print_text(c, deeper(indent)),
{
    let m = NodeModel { children: n.children.push(c), ..n };
    let s = m.children;
    assert(s.subrange(0, s.len() - 1) =~= n.children);
    assert(all_text(s, deeper(indent)) == all_text(n.children, deeper(indent)) + print_text(
        c,
        deeper(indent),
    ));
    assert(print_text(m, indent) =~= print_text(n, indent) + print_text(c, deeper(indent)));
}

fn digit_str(d: u64) -> (r: &'static str)
    requires
        d < 10,
    ensures
        r@ == seq![digit_char(d as int)],
{
    proof {
        reveal_strlit("0");
        reveal_strlit("1");
        reveal_strlit("2");
        reveal_strlit("3");
        reveal_strlit("4");
        reveal_strlit("5");
        reveal_strlit("6");
        reveal_strlit("7");
        reveal_strlit("8");
        reveal_strlit("9");
    }
    let r = if d == 0 {
        "0"
    } else if d == 1 {
        "1"
    } else if d == 2 {
        "2"
    } else if d == 3 {
        "3"
    } else if d == 4 {
        "4"
    } else if d == 5 {
        "5"
    } else if d == 6 {
        "6"
    } else if d == 7 {
        "7"
    } else if d == 8 {
        "8"
    } else {
        "9"
    };
    assert(r@ =~= seq![digit_char(d as int)]);
    r
}

fn write_nat(out: &mut String, n: u64)
    ensures
        final(out)@ == old(out)@ + nat_text(n as nat),
    decreases n,
{
    if n >= 10 {
        write_nat(out, n / 10);
    }
    out.append(digit_str(n % 10));
    assert(final(out)@ =~= old(out)@ + nat_text(n as nat)) by {
        if n >= 10 {
            assert(old(out)@ + nat_text((n / 10) as nat) + seq![digit_char((n % 10) as int)]
                =~= old(out)@ + nat_text(n as nat));
        }
    }
}

fn write_int(out: &mut String, v: i64)
    ensures
        final(out)@ == old(out)@ + int_text(v as int),
{
    if v < 0 {
        out.append("-");
        proof {
            reveal_strlit("-");
        }
        let magnitude: u64 = if v == i64::MIN {
            9223372036854775808
        } else {
            (-v) as u64
        };
        write_nat(out, magnitude);
        assert(final(out)@ =~= old(out)@ + int_text(v as int));
    } else {
        write_nat(out, v as u64);
    }
}

fn write_params(out: &mut String, ps: &Vec<(String, String)>)
    ensures
        final(out)@ == old(out)@ + params_text(crate::node::params_view(ps@)),
{
    let ghost start = out@;
    let ghost pv = crate::node::params_view(ps@);
    let mut i: usize = 0;
    while i < ps.len()
        invariant
            i <= ps.len(),
            pv == crate::node::params_view(ps@),
            out@ == start + params_text(pv.subrange(0, i as int)),
        decreases ps.len() - i,
    {
        out.append(ps[i].0.as_str());
        out.append(": ");
        out.append(ps[i].1.as_str());
        out.append(", ");
        proof {
            let q = pv.subrange(0, i + 1);
            assert(q.drop_last() =~= pv.subrange(0, i as int));
            assert(out@ =~= start + params_text(q));
        }
        i = i + 1;
    }
    assert(pv.subrange(0, ps.len() as int) =~= pv);
}

fn write_head(out: &mut String, n: &Node)
    ensures
        final(out)@ == old(out)@ + head(n@),
    decreases n, 0int,
{
    let ghost start = out@;
    match n.node_type {
        NodeType::Empty => out.append("NONE"),
        NodeType::Integer => match &n.value {
            Some(NodeValue::Integer(v)) => {
                out.append("INT:");
                write_int(out, *v);
            },
            _ => out.append("INT: <no value>"),
        },
        NodeType::Symbol => match &n.value {
            Some(NodeValue::Symbol(s)) => {
                out.append("SYM:");
                out.append(s.as_str());
            },
            _ => out.append("SYM: <no value>"),
        },
        NodeType::VariableDeclaration => match &n.value {
            Some(NodeValue::VariableDeclaration { name, var_type }) => {
                out.append("VAR DECLARATION: ");
                out.append(name.as_str());
                out.append(" : ");
                out.append(var_type.as_str());
            },
            _ => out.append("VAR DECLARATION: <no value>"),
        },
        NodeType::VariableDeclarationInitialized => match &n.value {
            Some(NodeValue::VariableDeclaration { name, var_type }) => {
                out.append("VAR DECLARATION INITIALIZED: ");
                out.append(name.as_str());
                out.append(" : ");
                out.append(var_type.as_str());
            },
            _ => out.append("VAR DECLARATION INITIALIZED: <no value>"),
        },
        NodeType::VariableAssignment => match &n.value {
            Some(NodeValue::VariableAssignment { name, value }) => {
                out.append("VAR ASSIGNMENT: ");
                out.append(name.as_str());
                out.append(" := ");
                write_line(out, value);
            },
            _ => out.append("VAR ASSIGNMENT: <no value>"),
        },
        NodeType::FunctionDefinition => match &n.value {
            Some(NodeValue::FunctionDefinition { name, params, return_type, .. }) => {
                out.append("FUNCTION DEFINITION: ");
                out.append(name.as_str());
                out.append(" (");
                write_params(out, params);
                out.append("): ");
                out.append(return_type.as_str());
            },
            _ => out.append("FUNCTION DEFINITION: <no value>"),
        },
        NodeType::Program => out.append("PROGRAM"),
    }
    assert(out@ =~= start + head(n@));
}

fn write_line(out: &mut String, n: &Node)
    ensures
        final(out)@ == old(out)@ + line_text(n@),
    decreases n, 1int,
{
    let ghost start = out@;
    write_head(out, n);
    if n.node_type == NodeType::FunctionDefinition {
        match &n.value {
            Some(NodeValue::FunctionDefinition { body, .. }) => {
                write_all_line(out, body);
            },
            _ => {},
        }
    }
    write_all_line(out, &n.children);
    assert(out@ =~= start + line_text(n@));
}

fn write_all_line(out: &mut String, v: &Vec<Node>)
    ensures
        final(out)@ == old(out)@ + all_line(nodes_view(v@)),
    decreases v, 0int,
{
    let ghost start = out@;
    let ghost s = nodes_view(v@);
    let mut i: usize = 0;
    while i < v.len()
        invariant
            i <= v.len(),
            s == nodes_view(v@),
            out@ == start + all_line(s.subrange(0, i as int)),
        decreases v.len() - i,
    {
        proof {
            assert(decreases_to!(*v => v@[i as int]));
        }
        out.append(" [");
        write_line(out, &v[i]);
        out.append("]");
        proof {
            let q = s.subrange(0, i + 1);
            assert(q.subrange(0, q.len() - 1) =~= s.subrange(0, i as int));
            assert(out@ =~= start + all_line(q));
        }
        i = i + 1;
    }
    assert(s.subrange(0, v.len() as int) =~= s);
}

fn write_spaces(out: &mut String, n: usize)
    ensures
        final(out)@ == old(out)@ + spaces(n as nat),
{
    let ghost start = out@;
    let mut i: usize = 0;
    while i < n
        invariant
            i <= n,
            out@ == start + spaces(i as nat),
        decreases n - i,
    {
        out.append(" ");
        proof {
            reveal_strlit(" ");
            assert(out@ =~= start + spaces((i + 1) as nat));
        }
        i = i + 1;
    }
}

fn write_tree(out: &mut String, n: &Node, indent: usize)
    ensures
        final(out)@ == old(out)@ + print_text(n@, indent as nat),
    decreases n,
{
    let ghost start = out@;
    let deeper_indent: usize = indent.saturating_add(4);
    write_spaces(out, indent);
    write_head(out, n);
    out.append("\n");
    proof {
        reveal_strlit("\n");
    }
    let ghost mid = out@;
    if n.node_type == NodeType::FunctionDefinition {
        match &n.value {
            Some(NodeValue::FunctionDefinition { body, .. }) => {
                write_all(out, body, deeper_indent);
            },
            _ => {},
        }
    }
    let ghost after_body = out@;
    write_all(out, &n.children, deeper_indent);
    assert(out@ =~= start + print_text(n@, indent as nat));
}

fn write_all(out: &mut String, v: &Vec<Node>, indent: usize)
    ensures
        final(out)@ == old(out)@ + all_text(nodes_view(v@), indent as nat),
    decreases v,
{
    let ghost start = out@;
    let ghost s = nodes_view(v@);
    let mut i: usize = 0;
    while i < v.len()
        invariant
            i <= v.len(),
            s == nodes_view(v@),
            out@ == start + all_text(s.subrange(0, i as int), indent as nat),
        decreases v.len() - i,
    {
        proof {
            assert(decreases_to!(*v => v@[i as int]));
        }
        write_tree(out, &v[i], indent);
        proof {
            let q = s.subrange(0, i + 1);
            assert(q.subrange(0, q.len() - 1) =~= s.subrange(0, i as int));
            assert(out@ =~= start + all_text(q, indent as nat));
        }
        i = i + 1;
    }
    assert(s.subrange(0, v.len() as int) =~= s);
}

impl Node {
    /// The single-line form of the node, with its body statements and children.
    pub fn to_string(&self) -> (r: String)
        ensures
            r@ == line_text(self@),
    {
        let mut out = String::new();
        write_line(&mut out, self);
        out
    }

    /// The indented multi-line form of the node, starting `indent_level` spaces in.
    pub fn print(&self, indent_level: usize) -> (r: String)
        ensures
            r@ == print_text(self@, indent_level as nat),
    {
        let mut out = String::new();
        write_tree(&mut out, self, indent_level);
        out
    }
}

} // verus!
