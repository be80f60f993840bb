use vstd::prelude::*;
use vstd::utf8::*;

use crate::environment::{lookup, Environment};
use crate::error::ErrorModel;
use crate::lexer::{is_delimiter, lemma_next_token, next_token};
use crate::node::{leaf, NodeModel, NodeType, ValueModel};

verus! {

/// The result of recognising a statement: its tree and the cursor after it, or an error.
pub type Outcome = Result<(NodeModel, int), ErrorModel>;

/// The result of recognising a parameter list or a body.
pub type ListOutcome<T> = Result<(Seq<T>, int), ErrorModel>;

pub open spec fn is_digit(c: u8) -> bool {
    48 <= c <= 57
}

pub open spec fn all_digits(d: Seq<u8>) -> bool {
    d.len() > 0 && forall|i: int| 0 <= i < d.len() ==> #[trigger] is_digit(d[i])
}

/// The number that a run of decimal digits denotes.
pub open spec fn digits_value(d: Seq<u8>) -> int
    decreases d.len(),
{
    if d.len() == 0 {
        0
    } else {
        digits_value(d.drop_last()) * 10 + (d.last() - 48)
    }
}

/// The integer that a token writes in base 10, with an optional sign.
pub open spec fn integer_value(t: Seq<u8>) -> Option<int> {
    if t.len() > 0 && t[0] == 45 && all_digits(t.drop_first()) {
        Some(-digits_value(t.drop_first()))
    } else if t.len() > 0 && t[0] == 43 && all_digits(t.drop_first()) {
        Some(digits_value(t.drop_first()))
    } else if all_digits(t) {
        Some(digits_value(t))
    } else {
        None
    }
}

/// The signed 64-bit integer that a token writes, if it writes one in range.
pub open spec fn token_integer(t: Seq<u8>) -> Option<i64> {
    match integer_value(t) {
        Some(v) => if i64::MIN <= v <= i64::MAX {
            Some(v as i64)
        } else {
            None
        },
        None => None,
    }
}

/// The characters of the token `[s, e)`.
pub open spec fn text(b: Seq<u8>, s: int, e: int) -> Seq<char> {
    decode_utf8(b.subrange(s, e))
}

/// Whether the token `[s, e)` is the single byte `c`.
pub open spec fn is_byte(b: Seq<u8>, s: int, e: int, c: u8) -> bool {
    e == s + 1 && 0 <= s < b.len() && b[s] == c
}

/// Whether the token `[s, e)` is the keyword `defun`.
pub open spec fn is_defun(b: Seq<u8>, s: int, e: int) -> bool {
    b.subrange(s, e) == seq![100u8, 101u8, 102u8, 117u8, 110u8]
}

/// Whether the token `[s, e)` can name a function or a parameter: a symbol, that is neither
/// an integer literal nor a delimiter.
pub open spec fn is_name(b: Seq<u8>, s: int, e: int) -> bool {
    token_integer(b.subrange(s, e)) is None && !is_delimiter(b[s])
}

/// The error for input that ends inside a production.
pub open spec fn truncated() -> ErrorModel {
    ErrorModel::SyntaxError(seq![])
}

/// A nested statement that finds no input is a truncated production.
pub open spec fn nested(r: Outcome) -> Outcome {
    match r {
        Err(ErrorModel::LexExhausted) => Err(truncated()),
        _ => r,
    }
}

/// Whether the `types` scope, or one that encloses it, knows the type `name`.
pub open spec fn has_type(types: Environment, name: Seq<char>) -> bool {
    lookup(types, name) is Some
}

pub open spec fn int_node(v: i64) -> NodeModel {
    leaf(NodeType::Integer, Some(ValueModel::Integer(v)))
}

pub open spec fn declaration_node(name: Seq<char>, ty: Seq<char>) -> NodeModel {
    leaf(NodeType::VariableDeclaration, Some(ValueModel::VariableDeclaration { name, var_type: ty }))
}

pub open spec fn initialized_node(name: Seq<char>, ty: Seq<char>, init: NodeModel) -> NodeModel {
    NodeModel {
        node_type: NodeType::VariableDeclarationInitialized,
        value: Some(ValueModel::VariableDeclaration { name, var_type: ty }),
        children: seq![init],
    }
}

pub open spec fn assignment_node(name: Seq<char>, v: NodeModel) -> NodeModel {
    leaf(NodeType::VariableAssignment, Some(ValueModel::VariableAssignment { name, value: Box::new(v) }))
}

pub open spec fn function_node(
    name: Seq<char>,
    params: Seq<(Seq<char>, Seq<char>)>,
    return_type: Seq<char>,
    body: Seq<NodeModel>,
) -> NodeModel {
    leaf(
        NodeType::FunctionDefinition,
        Some(ValueModel::FunctionDefinition { name, params, return_type, body }),
    )
}

/// The characters of `void`, the return type of a function that names none.
pub open spec fn void_type() -> Seq<char> {
    seq!['v', 'o', 'i', 'd']
}

/// One statement, starting the search for its first token at `c`: an integer literal, or a
/// production led by a symbol.
pub open spec fn parse_statement(t: Environment, b: Seq<u8>, c: int) -> Outcome
    decreases b.len() - c, 0int,
    via statement_decreases
{
    match next_token(b, c) {
        None => Err(ErrorModel::LexExhausted),
        Some((s, e)) => match token_integer(b.subrange(s, e)) {
            Some(v) => Ok((int_node(v), e)),
            None => parse_after_symbol(t, b, s, e),
        },
    }
}

/// What follows a symbol `[s, e)`: `: type`, `:= expr`, or, after `defun`, a function whose
/// name is a symbol.
pub open spec fn parse_after_symbol(t: Environment, b: Seq<u8>, s: int, e: int) -> Outcome
    decreases b.len() - e, 3int,
    via after_symbol_decreases
{
    match next_token(b, e) {
        None => Err(truncated()),
        Some((s2, e2)) => if is_byte(b, s2, e2, 58) {
            if e2 < b.len() && b[e2] == 61 {
                match nested(parse_statement(t, b, e2 + 1)) {
                    Ok((v, c3)) => Ok((assignment_node(text(b, s, e), v), c3)),
                    Err(x) => Err(x),
                }
            } else {
                parse_declaration(t, b, text(b, s, e), e2)
            }
        } else if is_defun(b, s, e) {
            if is_name(b, s2, e2) {
                parse_function(t, b, s2, e2)
            } else {
                Err(ErrorModel::SyntaxError(text(b, s2, e2)))
            }
        } else {
            Err(ErrorModel::SyntaxError(text(b, s2, e2)))
        },
    }
}

/// A declaration of `name` after its `:`: a known type, then an optional `= expr`.
pub open spec fn parse_declaration(t: Environment, b: Seq<u8>, name: Seq<char>, c: int) -> Outcome
    decreases b.len() - c, 2int,
    via declaration_decreases
{
    match next_token(b, c) {
        None => Err(truncated()),
        Some((s, e)) => {
            let ty = text(b, s, e);
            if !has_type(t, ty) {
                Err(ErrorModel::TypeError(ty))
            } else {
                match next_token(b, e) {
                    Some((s2, e2)) => if is_byte(b, s2, e2, 61) {
                        match nested(parse_statement(t, b, e2)) {
                            Ok((v, c3)) => Ok((initialized_node(name, ty, v), c3)),
                            Err(x) => Err(x),
                        }
                    } else {
                        Ok((declaration_node(name, ty), e))
                    },
                    None => Ok((declaration_node(name, ty), e)),
                }
            }
        },
    }
}

/// The parameters after `(`: `)` at once, or `name : type` pairs, each name a symbol, parted by `,` and closed by
/// `)`; `acc` holds those already read.
pub open spec fn parse_params(
    b: Seq<u8>,
    c: int,
    acc: Seq<(Seq<char>, Seq<char>)>,
) -> ListOutcome<(Seq<char>, Seq<char>)>
    decreases b.len() - c,
    via params_decreases
{
    match next_token(b, c) {
        None => Err(truncated()),
        Some((s, e)) => if is_byte(b, s, e, 41) && acc.len() == 0 {
            Ok((acc, e))
        } else if !is_name(b, s, e) {
            Err(ErrorModel::SyntaxError(text(b, s, e)))
        } else {
            match next_token(b, e) {
                None => Err(truncated()),
                Some((s2, e2)) => if !is_byte(b, s2, e2, 58) {
                    Err(ErrorModel::SyntaxError(text(b, s2, e2)))
                } else {
                    match next_token(b, e2) {
                        None => Err(truncated()),
                        Some((s3, e3)) => {
                            let more = acc.push((text(b, s, e), text(b, s3, e3)));
                            match next_token(b, e3) {
                                None => Err(truncated()),
                                Some((s4, e4)) => if is_byte(b, s4, e4, 44) {
                                    parse_params(b, e4, more)
                                } else if is_byte(b, s4, e4, 41) {
                                    Ok((more, e4))
                                } else {
                                    Err(ErrorModel::SyntaxError(text(b, s4, e4)))
                                },
                            }
                        },
                    }
                },
            }
        },
    }
}

/// A function after `defun`, its name being `[s, e)`: an optional parameter list, then the
/// rest of its signature and its body.
pub open spec fn parse_function(t: Environment, b: Seq<u8>, s: int, e: int) -> Outcome
    decreases b.len() - e, 2int,
    via function_decreases
{
    match next_token(b, e) {
        None => Err(truncated()),
        Some((s1, e1)) => if is_byte(b, s1, e1, 40) {
            match parse_params(b, e1, seq![]) {
                Err(x) => Err(x),
                Ok((ps, c2)) => parse_return(t, b, text(b, s, e), ps, c2),
            }
        } else {
            parse_return(t, b, text(b, s, e), seq![], e)
        },
    }
}

/// An optional `: type` after the parameters, then the body.
pub open spec fn parse_return(
    t: Environment,
    b: Seq<u8>,
    name: Seq<char>,
    ps: Seq<(Seq<char>, Seq<char>)>,
    c: int,
) -> Outcome
    decreases b.len() - c, 1int,
    via return_decreases
{
    match next_token(b, c) {
        None => Err(truncated()),
        Some((s, e)) => if is_byte(b, s, e, 58) {
            match next_token(b, e) {
                None => Err(truncated()),
                Some((s2, e2)) => parse_body_open(t, b, name, ps, text(b, s2, e2), e2),
            }
        } else {
            parse_body_open(t, b, name, ps, void_type(), c)
        },
    }
}

/// The `{` that opens a body, then the body.
pub open spec fn parse_body_open(
    t: Environment,
    b: Seq<u8>,
    name: Seq<char>,
    ps: Seq<(Seq<char>, Seq<char>)>,
    ret: Seq<char>,
    c: int,
) -> Outcome
    decreases b.len() - c, 0int,
    via body_open_decreases
{
    match next_token(b, c) {
        None => Err(truncated()),
        Some((s, e)) => if is_byte(b, s, e, 123) {
            match parse_body(t, b, e, seq![]) {
                Err(x) => Err(x),
                Ok((body, c2)) => Ok((function_node(name, ps, ret, body), c2)),
            }
        } else {
            Err(ErrorModel::SyntaxError(text(b, s, e)))
        },
    }
}

/// Statements up to the `}` that closes a body; `acc` holds those already read.
pub open spec fn parse_body(t: Environment, b: Seq<u8>, c: int, acc: Seq<NodeModel>) -> ListOutcome<
    NodeModel,
>
    decreases b.len() - c, 1int,
    via body_decreases
{
    match next_token(b, c) {
        None => Err(truncated()),
        Some((s, e)) => if is_byte(b, s, e, 125) {
            Ok((acc, e))
        } else {
            match nested(parse_statement(t, b, c)) {
                Err(x) => Err(x),
                // A statement always ends past its start, within the source; the test keeps
                // this definition well-founded.
                Ok((n, c2)) => if c < c2 <= b.len() {
                    parse_body(t, b, c2, acc.push(n))
                } else {
                    Err(truncated())
                },
            }
        },
    }
}

/// Statements read one after another from `c` until no token is left; `acc` holds those
/// already read. The first error ends the reading.
pub open spec fn parse_all(t: Environment, b: Seq<u8>, c: int, acc: Seq<NodeModel>) -> ListOutcome<
    NodeModel,
>
    decreases b.len() - c,
{
    match parse_statement(t, b, c) {
        Err(ErrorModel::LexExhausted) => Ok((acc, c)),
        Err(x) => Err(x),
        Ok((n, c2)) => if c < c2 <= b.len() {
            parse_all(t, b, c2, acc.push(n))
        } else {
            Err(truncated())
        },
    }
}

#[via_fn]
proof fn statement_decreases(t: Environment, b: Seq<u8>, c: int) {
    lemma_next_token(b, c);
}

#[via_fn]
proof fn after_symbol_decreases(t: Environment, b: Seq<u8>, s: int, e: int) {
    lemma_next_token(b, e);
}

#[via_fn]
proof fn declaration_decreases(t: Environment, b: Seq<u8>, name: Seq<char>, c: int) {
    lemma_next_token(b, c);
    if let Some((s, e)) = next_token(b, c) {
        lemma_next_token(b, e);
    }
}

#[via_fn]
proof fn params_decreases(b: Seq<u8>, c: int, acc: Seq<(Seq<char>, Seq<char>)>) {
    lemma_next_token(b, c);
    if let Some((s, e)) = next_token(b, c) {
        lemma_next_token(b, e);
        if let Some((s2, e2)) = next_token(b, e) {
            lemma_next_token(b, e2);
            if let Some((s3, e3)) = next_token(b, e2) {
                lemma_next_token(b, e3);
            }
        }
    }
}

/// A parameter list that is read ends after the cursor, within the source.
pub proof fn lemma_params_advance(b: Seq<u8>, c: int, acc: Seq<(Seq<char>, Seq<char>)>)
    ensures
        parse_params(b, c, acc) matches Ok((ps, c2)) ==> c < c2 <= b.len(),
    decreases b.len() - c,
{
    lemma_next_token(b, c);
    if let Some((s, e)) = next_token(b, c) {
        lemma_next_token(b, e);
        if let Some((s2, e2)) = next_token(b, e) {
            lemma_next_token(b, e2);
            if let Some((s3, e3)) = next_token(b, e2) {
                lemma_next_token(b, e3);
                if let Some((s4, e4)) = next_token(b, e3) {
                    let more = acc.push((text(b, s, e), text(b, s3, e3)));
                    lemma_params_advance(b, e4, more);
                }
            }
        }
    }
}

#[via_fn]
proof fn function_decreases(t: Environment, b: Seq<u8>, s: int, e: int) {
    lemma_next_token(b, e);
    if let Some((s1, e1)) = next_token(b, e) {
        lemma_params_advance(b, e1, seq![]);
    }
}

#[via_fn]
proof fn return_decreases(
    t: Environment,
    b: Seq<u8>,
    name: Seq<char>,
    ps: Seq<(Seq<char>, Seq<char>)>,
    c: int,
) {
    lemma_next_token(b, c);
    if let Some((s, e)) = next_token(b, c) {
        lemma_next_token(b, e);
    }
}

#[via_fn]
proof fn body_open_decreases(
    t: Environment,
    b: Seq<u8>,
    name: Seq<char>,
    ps: Seq<(Seq<char>, Seq<char>)>,
    ret: Seq<char>,
    c: int,
) {
    lemma_next_token(b, c);
}

#[via_fn]
proof fn body_decreases(t: Environment, b: Seq<u8>, c: int, acc: Seq<NodeModel>) {
    lemma_next_token(b, c);
}

} // verus!
