use vstd::prelude::*;
use vstd::string::*;
use vstd::utf8::*;

use crate::environment::{keys_unique, lookup, symbol_key, Environment};
use crate::error::Error;
use crate::grammar::{
    all_digits, assignment_node, declaration_node, digits_value, function_node, has_type,
    initialized_node, int_node, is_byte, is_defun, is_digit, is_name, nested, parse_after_symbol, parse_all,
    parse_body, parse_body_open, parse_declaration, parse_function, parse_params, parse_return,
    parse_statement, token_integer, truncated, void_type, ListOutcome, Outcome,
};
use crate::lexer::{
    is_delimiter_byte, lemma_ascii_step, lemma_exhausted, lemma_next_token, lemma_token_boundaries, lex, next_token,
    token_text, Token,
};
use crate::node::{nodes_view, params_view, Node, NodeModel, NodeType, NodeValue};

verus! {

/// The scopes that a parse consults: declared types, and variables.
#[derive(Debug)]
pub struct ParsingContext {
    pub types: Environment,
    pub variables: Environment,
}

/// What a statement parse gives, in the terms of the grammar.
pub open spec fn outcome_of(r: Result<(Node, usize), Error>) -> Outcome {
    match r {
        Ok((n, c)) => Ok((n@, c as int)),
        Err(x) => Err(x@),
    }
}

/// What a body parse gives, in the terms of the grammar.
pub open spec fn body_outcome_of(r: Result<(Vec<Node>, usize), Error>) -> ListOutcome<NodeModel> {
    match r {
        Ok((v, c)) => Ok((nodes_view(v@), c as int)),
        Err(x) => Err(x@),
    }
}

/// What a parameter list parse gives, in the terms of the grammar.
pub open spec fn params_outcome_of(r: Result<(Vec<(String, String)>, usize), Error>) -> ListOutcome<
    (Seq<char>, Seq<char>),
> {
    match r {
        Ok((v, c)) => Ok((params_view(v@), c as int)),
        Err(x) => Err(x@),
    }
}

/// A parse that succeeds ends on a character boundary past where it began.
pub open spec fn advances(source: &str, c: int, r_cursor: int) -> bool {
    c < r_cursor <= source.spec_bytes().len() && is_char_boundary(source.spec_bytes(), r_cursor)
}

/// The next token at or after `cursor`, if any.
fn scan(source: &str, cursor: usize) -> (r: Option<Token>)
    requires
        is_char_boundary(source.spec_bytes(), cursor as int),
    ensures
        match next_token(source.spec_bytes(), cursor as int) {
            None => r is None,
            Some((s, e)) => r matches Some(t) && t.beginning == s && t.end == e && cursor <= s
                < e <= source.spec_bytes().len() && is_char_boundary(source.spec_bytes(), s)
                && is_char_boundary(source.spec_bytes(), e),
        },
{
    proof {
        encode_utf8_valid_utf8(source@);
        lemma_next_token(source.spec_bytes(), cursor as int);
        lemma_token_boundaries(source.spec_bytes(), cursor as int);
    }
    let mut t = Token::new(cursor, cursor);
    match lex(source, &mut t) {
        Ok(()) => Some(t),
        Err(_) => None,
    }
}

fn token_is(source: &str, t: &Token, c: u8) -> (r: bool)
    requires
        t.beginning < t.end <= source.spec_bytes().len(),
    ensures
        r == is_byte(source.spec_bytes(), t.beginning as int, t.end as int, c),
{
    let bytes = source.as_bytes();
    t.end - t.beginning == 1 && bytes[t.beginning] == c
}

fn token_is_defun(source: &str, t: &Token) -> (r: bool)
    requires
        t.beginning < t.end <= source.spec_bytes().len(),
    ensures
        r == is_defun(source.spec_bytes(), t.beginning as int, t.end as int),
{
    let bytes = source.as_bytes();
    let ghost w = source.spec_bytes().subrange(t.beginning as int, t.end as int);
    if t.end - t.beginning != 5 {
        assert(w.len() != 5);
        return false;
    }
    let s: usize = t.beginning;
    let r = bytes[s] == 100 && bytes[s + 1] == 101 && bytes[s + 2] == 102 && bytes[s + 3] == 117
        && bytes[s + 4] == 110;
    proof {
        if r {
            assert(w =~= seq![100u8, 101u8, 102u8, 117u8, 110u8]);
        } else {
            assert(w[0] != 100 || w[1] != 101 || w[2] != 102 || w[3] != 117 || w[4] != 110);
        }
    }
    r
}

fn token_is_name(source: &str, t: &Token) -> (r: bool)
    requires
        t.beginning < t.end <= source.spec_bytes().len(),
    ensures
        r == is_name(source.spec_bytes(), t.beginning as int, t.end as int),
{
    let bytes = source.as_bytes();
    integer_of(bytes, t.beginning, t.end).is_none() && !is_delimiter_byte(bytes[t.beginning])
}

fn truncated_error() -> (r: Error)
    ensures
        r@ == truncated(),
{
    Error::SyntaxError(String::new())
}

fn nest(r: Result<(Node, usize), Error>) -> (q: Result<(Node, usize), Error>)
    ensures
        outcome_of(q) == nested(outcome_of(r)),
        q matches Ok((_, c)) ==> r matches Ok((_, c0)) && c == c0,
{
    match r {
        Err(Error::LexExhausted) => Err(truncated_error()),
        _ => r,
    }
}

fn knows_type(types: &Environment, ty: &String) -> (r: bool)
    ensures
        r == has_type(*types, ty@),
{
    let key = Node::new(NodeType::Symbol, Some(NodeValue::Symbol(ty.clone())));
    assert(symbol_key(key) == Some(ty@));
    types.get(&key).is_some()
}

proof fn lemma_digits_step(d: Seq<u8>, k: int)
    requires
        0 <= k < d.len(),
    ensures
        digits_value(d.subrange(0, k + 1)) == digits_value(d.subrange(0, k)) * 10 + (d[k] - 48),
{
    assert(d.subrange(0, k + 1).drop_last() =~= d.subrange(0, k));
}

proof fn lemma_digits_grow(d: Seq<u8>, j: int, k: int)
    requires
        0 <= j <= k <= d.len(),
        forall|i: int| 0 <= i < d.len() ==> #[trigger] is_digit(d[i]),
    ensures
        0 <= digits_value(d.subrange(0, j)) <= digits_value(d.subrange(0, k)),
    decreases k,
{
    if k > 0 {
        if j < k {
            lemma_digits_grow(d, j, k - 1);
        } else {
            lemma_digits_grow(d, j - 1, k - 1);
        }
        lemma_digits_step(d, k - 1);
        assert(is_digit(d[k - 1]));
    } else {
        assert(d.subrange(0, 0).len() == 0);
    }
}

/// The value of the decimal integer, with an optional sign, that `b[s..e]` writes, if it is
/// in the range of `i64`.
fn integer_of(b: &[u8], s: usize, e: usize) -> (r: Option<i64>)
    requires
        s <= e <= b@.len(),
    ensures
        r == token_integer(b@.subrange(s as int, e as int)),
{
    let ghost t = b@.subrange(s as int, e as int);
    if s == e {
        return None;
    }
    let negative = b[s] == 45;
    let start: usize = if b[s] == 45 || b[s] == 43 {
        s + 1
    } else {
        s
    };
    let ghost d = b@.subrange(start as int, e as int);
    proof {
        if start == s + 1 {
            assert(t.drop_first() =~= d);
        } else {
            assert(t =~= d);
        }
        assert(start == s + 1 ==> !is_digit(t[0]));
    }
    if start == e {
        assert(!all_digits(d));
        return None;
    }
    let mut acc: u64 = 0;
    let mut k: usize = start;
    while k < e
        invariant
            start <= k <= e <= b@.len(),
            d == b@.subrange(start as int, e as int),
            forall|i: int| 0 <= i < k - start ==> #[trigger] is_digit(d[i]),
            acc == digits_value(d.subrange(0, k - start)),
            acc <= 9223372036854775808,
            s < start ==> t.drop_first() == d && !is_digit(t[0]),
            s == start ==> t == d && t[0] != 45 && t[0] != 43,
            s <= start <= s + 1,
            t == b@.subrange(s as int, e as int),
            t.len() > 0,
            negative <==> (s < start && t[0] == 45),
            s < start && !negative ==> t[0] == 43,
        decreases e - k,
    {
        let c: u8 = b[k];
        if c < 48 || c > 57 {
            assert(!is_digit(d[k - start]));
            return None;
        }
        let digit: u64 = (c - 48) as u64;
        proof {
            lemma_digits_step(d, k - start);
            assert(d.subrange(0, k - start + 1) == d.subrange(0, (k + 1 - start) as int));
        }
        if acc > 922337203685477580 || (acc == 922337203685477580 && digit > 8) {
            proof {
                assert(digits_value(d.subrange(0, k + 1 - start)) > 9223372036854775808);
                if all_digits(d) {
                    lemma_digits_grow(d, k + 1 - start, d.len() as int);
                    assert(d.subrange(0, d.len() as int) =~= d);
                }
            }
            return None;
        }
        acc = acc * 10 + digit;
        k = k + 1;
    }
    proof {
        assert(d.subrange(0, d.len() as int) =~= d);
    }
    if negative {
        if acc == 9223372036854775808 {
            Some(i64::MIN)
        } else {
            Some(-(acc as i64))
        }
    } else if acc > 9223372036854775807 {
        None
    } else {
        Some(acc as i64)
    }
}

/// An integer node for a token that writes a base-10 signed 64-bit integer; `Err` otherwise.
pub fn parse_integer(token: &Token, source: &str) -> (r: Result<Node, ()>)
    requires
        token.beginning <= token.end <= source.spec_bytes().len(),
    ensures
        match token_integer(source.spec_bytes().subrange(token.beginning as int, token.end as int)) {
            Some(v) => r is Ok && r->Ok_0@ == int_node(v),
            None => r is Err,
        },
{
    match integer_of(source.as_bytes(), token.beginning, token.end) {
        Some(v) => Ok(Node::from_integer(v)),
        None => Err(()),
    }
}

/// The characters of `integer`, the type that every context knows.
pub open spec fn integer_type() -> Seq<char> {
    seq!['i', 'n', 't', 'e', 'g', 'e', 'r']
}

impl ParsingContext {
    /// A context whose `types` scope knows `integer` alone and whose `variables` scope is empty.
    pub fn new() -> (r: ParsingContext)
        ensures
            r.types.parent is None,
            r.variables.parent is None,
            keys_unique(r.types.bind@),
            forall|k: Seq<char>| #[trigger]
                lookup(r.types, k) is Some <==> k == integer_type(),
            lookup(r.types, integer_type()) matches Some(n) && n@ == int_node(0),
            forall|k: Seq<char>| #[trigger] lookup(r.variables, k) is None,
    {
        let mut types = Environment::new(None);
        let key = Node::from_symbol("integer");
        proof {
            reveal_strlit("integer");
            assert("integer"@ =~= integer_type());
        }
        let _ = types.set(&key, Node::from_integer(0));
        ParsingContext { types, variables: Environment::new(None) }
    }
}

fn assignment(name: String, v: Node) -> (r: Node)
    ensures
        r@ == assignment_node(name@, v@),
{
    Node::new(NodeType::VariableAssignment, Some(NodeValue::VariableAssignment { name, value: Box::new(v) }))
}

fn declaration(name: String, ty: String) -> (r: Node)
    ensures
        r@ == declaration_node(name@, ty@),
{
    Node::new(NodeType::VariableDeclaration, Some(NodeValue::VariableDeclaration { name, var_type: ty }))
}

fn initialized(name: String, ty: String, v: Node) -> (r: Node)
    ensures
        r@ == initialized_node(name@, ty@, v@),
{
    let mut n = Node::new(
        NodeType::VariableDeclarationInitialized,
        Some(NodeValue::VariableDeclaration { name, var_type: ty }),
    );
    n.add_child(v);
    assert(n@.children =~= seq![v@]);
    n
}

fn function_definition(name: String, params: Vec<(String, String)>, return_type: String, body: Vec<Node>) -> (r: Node)
    ensures
        r@ == function_node(name@, params_view(params@), return_type@, nodes_view(body@)),
{
    Node::new(
        NodeType::FunctionDefinition,
        Some(NodeValue::FunctionDefinition { name, params, return_type, body }),
    )
}

fn statement(types: &Environment, source: &str, c: usize) -> (r: Result<(Node, usize), Error>)
    requires
        is_char_boundary(source.spec_bytes(), c as int),
    ensures
        outcome_of(r) == parse_statement(*types, source.spec_bytes(), c as int),
        r matches Ok((_, c2)) ==> advances(source, c as int, c2 as int),
    decreases source.spec_bytes().len() - c, 0int,
{
    match scan(source, c) {
        None => Err(Error::LexExhausted),
        Some(t) => match parse_integer(&t, source) {
            Ok(n) => Ok((n, t.end)),
            Err(()) => after_symbol(types, source, t.beginning, t.end),
        },
    }
}

fn after_symbol(types: &Environment, source: &str, s: usize, e: usize) -> (r: Result<(Node, usize), Error>)
    requires
        s < e <= source.spec_bytes().len(),
        is_char_boundary(source.spec_bytes(), s as int),
        is_char_boundary(source.spec_bytes(), e as int),
    ensures
        outcome_of(r) == parse_after_symbol(*types, source.spec_bytes(), s as int, e as int),
        r matches Ok((_, c2)) ==> advances(source, e as int, c2 as int),
    decreases source.spec_bytes().len() - e, 3int,
{
    let sym = Token::new(s, e);
    match scan(source, e) {
        None => Err(truncated_error()),
        Some(t2) => {
            if token_is(source, &t2, 58) {
                let bytes = source.as_bytes();
                if t2.end < bytes.len() && bytes[t2.end] == 61 {
                    proof {
                        encode_utf8_valid_utf8(source@);
                        lemma_ascii_step(source.spec_bytes(), t2.end as int);
                    }
                    match nest(statement(types, source, t2.end + 1)) {
                        Ok((v, c3)) => Ok((assignment(token_text(source, &sym), v), c3)),
                        Err(x) => Err(x),
                    }
                } else {
                    initializer_or_not(types, source, token_text(source, &sym), t2.end)
                }
            } else if token_is_defun(source, &sym) {
                if token_is_name(source, &t2) {
                    function(types, source, t2.beginning, t2.end)
                } else {
                    Err(Error::SyntaxError(token_text(source, &t2)))
                }
            } else {
                Err(Error::SyntaxError(token_text(source, &t2)))
            }
        },
    }
}

fn initializer_or_not(types: &Environment, source: &str, name: String, c: usize) -> (r: Result<(Node, usize), Error>)
    requires
        is_char_boundary(source.spec_bytes(), c as int),
    ensures
        outcome_of(r) == parse_declaration(*types, source.spec_bytes(), name@, c as int),
        r matches Ok((_, c2)) ==> advances(source, c as int, c2 as int),
    decreases source.spec_bytes().len() - c, 2int,
{
    match scan(source, c) {
        None => Err(truncated_error()),
        Some(t) => {
            let ty = token_text(source, &t);
            if !knows_type(types, &ty) {
                return Err(Error::TypeError(ty));
            }
            match scan(source, t.end) {
                Some(t2) => if token_is(source, &t2, 61) {
                    match nest(statement(types, source, t2.end)) {
                        Ok((v, c3)) => Ok((initialized(name, ty, v), c3)),
                        Err(x) => Err(x),
                    }
                } else {
                    Ok((declaration(name, ty), t.end))
                },
                None => Ok((declaration(name, ty), t.end)),
            }
        },
    }
}

fn params(source: &str, c: usize, acc: Vec<(String, String)>) -> (r: Result<(Vec<(String, String)>, usize), Error>)
    requires
        is_char_boundary(source.spec_bytes(), c as int),
    ensures
        params_outcome_of(r) == parse_params(source.spec_bytes(), c as int, params_view(acc@)),
        r matches Ok((_, c2)) ==> advances(source, c as int, c2 as int),
    decreases source.spec_bytes().len() - c,
{
    match scan(source, c) {
        None => Err(truncated_error()),
        Some(t) => {
            if token_is(source, &t, 41) && acc.len() == 0 {
                return Ok((acc, t.end));
            }
            if !token_is_name(source, &t) {
                return Err(Error::SyntaxError(token_text(source, &t)));
            }
            match scan(source, t.end) {
                None => Err(truncated_error()),
                Some(t2) => {
                    if !token_is(source, &t2, 58) {
                        return Err(Error::SyntaxError(token_text(source, &t2)));
                    }
                    match scan(source, t2.end) {
                        None => Err(truncated_error()),
                        Some(t3) => {
                            let ghost before = acc@;
                            let pair = (token_text(source, &t), token_text(source, &t3));
                            let mut more = acc;
                            more.push(pair);
                            proof {
                                assert(params_view(more@) =~= params_view(before).push((pair.0@, pair.1@)));
                            }
                            match scan(source, t3.end) {
                                None => Err(truncated_error()),
                                Some(t4) => if token_is(source, &t4, 44) {
                                    params(source, t4.end, more)
                                } else if token_is(source, &t4, 41) {
                                    Ok((more, t4.end))
                                } else {
                                    Err(Error::SyntaxError(token_text(source, &t4)))
                                },
                            }
                        },
                    }
                },
            }
        },
    }
}

fn function(types: &Environment, source: &str, s: usize, e: usize) -> (r: Result<(Node, usize), Error>)
    requires
        s < e <= source.spec_bytes().len(),
        is_char_boundary(source.spec_bytes(), s as int),
        is_char_boundary(source.spec_bytes(), e as int),
    ensures
        outcome_of(r) == parse_function(*types, source.spec_bytes(), s as int, e as int),
        r matches Ok((_, c2)) ==> advances(source, e as int, c2 as int),
    decreases source.spec_bytes().len() - e, 2int,
{
    let name = token_text(source, &Token::new(s, e));
    let none: Vec<(String, String)> = Vec::new();
    assert(params_view(none@) =~= seq![]);
    match scan(source, e) {
        None => Err(truncated_error()),
        Some(t1) => if token_is(source, &t1, 40) {
            match params(source, t1.end, none) {
                Err(x) => Err(x),
                Ok((ps, c2)) => return_part(types, source, name, ps, c2),
            }
        } else {
            return_part(types, source, name, none, e)
        },
    }
}

fn return_part(
    types: &Environment,
    source: &str,
    name: String,
    ps: Vec<(String, String)>,
    c: usize,
) -> (r: Result<(Node, usize), Error>)
    requires
        is_char_boundary(source.spec_bytes(), c as int),
    ensures
        outcome_of(r) == parse_return(*types, source.spec_bytes(), name@, params_view(ps@), c as int),
        r matches Ok((_, c2)) ==> advances(source, c as int, c2 as int),
    decreases source.spec_bytes().len() - c, 1int,
{
    match scan(source, c) {
        None => Err(truncated_error()),
        Some(t) => if token_is(source, &t, 58) {
            match scan(source, t.end) {
                None => Err(truncated_error()),
                Some(t2) => body_open(types, source, name, ps, token_text(source, &t2), t2.end),
            }
        } else {
            let void = String::from_str("void");
            proof {
                reveal_strlit("void");
                assert(void@ =~= void_type());
            }
            body_open(types, source, name, ps, void, c)
        },
    }
}

fn body_open(
    types: &Environment,
    source: &str,
    name: String,
    ps: Vec<(String, String)>,
    ret: String,
    c: usize,
) -> (r: Result<(Node, usize), Error>)
    requires
        is_char_boundary(source.spec_bytes(), c as int),
    ensures
        outcome_of(r) == parse_body_open(*types, source.spec_bytes(), name@, params_view(ps@), ret@, c as int),
        r matches Ok((_, c2)) ==> advances(source, c as int, c2 as int),
    decreases source.spec_bytes().len() - c, 0int,
{
    let none: Vec<Node> = Vec::new();
    assert(nodes_view(none@) =~= seq![]);
    match scan(source, c) {
        None => Err(truncated_error()),
        Some(t) => if token_is(source, &t, 123) {
            match body(types, source, t.end, none) {
                Err(x) => Err(x),
                Ok((stmts, c2)) => Ok((function_definition(name, ps, ret, stmts), c2)),
            }
        } else {
            Err(Error::SyntaxError(token_text(source, &t)))
        },
    }
}

fn body(types: &Environment, source: &str, c: usize, acc: Vec<Node>) -> (r: Result<(Vec<Node>, usize), Error>)
    requires
        is_char_boundary(source.spec_bytes(), c as int),
    ensures
        body_outcome_of(r) == parse_body(*types, source.spec_bytes(), c as int, nodes_view(acc@)),
        r matches Ok((_, c2)) ==> advances(source, c as int, c2 as int),
    decreases source.spec_bytes().len() - c, 1int,
{
    match scan(source, c) {
        None => Err(truncated_error()),
        Some(t) => if token_is(source, &t, 125) {
            Ok((acc, t.end))
        } else {
            match nest(statement(types, source, c)) {
                Err(x) => Err(x),
                Ok((n, c2)) => {
                    let ghost before = acc@;
                    let ghost nv = n@;
                    let mut more = acc;
                    more.push(n);
                    proof {
                        assert(nodes_view(more@) =~= nodes_view(before).push(nv));
                    }
                    body(types, source, c2, more)
                },
            }
        },
    }
}

/// Whether `c` may serve as a cursor into `source`: it does not fall inside the encoding of
/// a character.
pub open spec fn is_cursor(source: &str, c: int) -> bool {
    c == 0 || c >= source.spec_bytes().len() || is_char_boundary(source.spec_bytes(), c)
}

/// Parses one statement of `source`, starting the search for its first token at `*end`,
/// and moves `*end` past it. The `types` scope of `context` decides which declared types
/// exist; neither scope is changed.
pub fn parse_expr(context: &mut ParsingContext, source: &str, end: &mut usize) -> (r: Result<Node, Error>)
    requires
        is_cursor(source, *old(end) as int),
    ensures
        *final(context) == *old(context),
        match parse_statement(old(context).types, source.spec_bytes(), *old(end) as int) {
            Ok((n, c)) => r matches Ok(m) && m@ == n && *final(end) == c,
            Err(x) => r matches Err(y) && y@ == x && *final(end) == *old(end),
        },
        is_cursor(source, *final(end) as int),
        r is Ok ==> *old(end) < *final(end) <= source.spec_bytes().len(),
{
    if *end >= source.as_bytes().len() {
        proof {
            lemma_exhausted(source.spec_bytes(), *end as int);
        }
        return Err(Error::LexExhausted);
    }
    proof {
        encode_utf8_valid_utf8(source@);
        is_char_boundary_start_end_of_seq(source.spec_bytes());
    }
    match statement(&context.types, source, *end) {
        Ok((n, c)) => {
            *end = c;
            Ok(n)
        },
        Err(x) => Err(x),
    }
}

/// Parses every statement of `source` in turn into one `Program` node whose children are
/// those statements, in order. The first error ends the parse and is the result.
pub fn parse_program(context: &mut ParsingContext, source: &str) -> (r: Result<Node, Error>)
    ensures
        *final(context) == *old(context),
        match parse_all(old(context).types, source.spec_bytes(), 0, seq![]) {
            Ok((stmts, _)) => r matches Ok(p) && p@ == (NodeModel {
                node_type: NodeType::Program,
                value: None,
                children: stmts,
            }),
            Err(x) => r matches Err(y) && y@ == x,
        },
{
    let ghost b = source.spec_bytes();
    let ghost t = context.types;
    let mut program = Node::new(NodeType::Program, None);
    let mut end: usize = 0;
    loop
        invariant
            *context == *old(context),
            t == old(context).types,
            b == source.spec_bytes(),
            is_cursor(source, end as int),
            end <= b.len() || end == 0,
            program@.node_type == NodeType::Program,
            program@.value is None,
            parse_all(t, b, 0, seq![]) == parse_all(t, b, end as int, program@.children),
        decreases b.len() - end,
    {
        match parse_expr(context, source, &mut end) {
            Ok(n) => program.add_child(n),
            Err(Error::LexExhausted) => {
                return Ok(program);
            },
            Err(x) => {
                return Err(x);
            },
        }
    }
}
} // verus!
