use vstd::prelude::*;
use vstd::utf8::*;
use vstd::string::*;

use crate::error::Error;

verus! {

/// A half-open byte range `[beginning, end)` into a source text.
#[derive(Debug, Clone, Copy, PartialEq, Eq, Structural)]
pub struct Token {
    pub beginning: usize,
    pub end: usize,
}

/// Space, carriage return and line feed.
pub open spec fn is_whitespace(c: u8) -> bool {
    c == 32 || c == 13 || c == 10
}

/// Whitespace, and the separators `,` `(` `)` `:`.
pub open spec fn is_delimiter(c: u8) -> bool {
    is_whitespace(c) || c == 44 || c == 40 || c == 41 || c == 58
}

/// The first position at or after `i` that does not hold whitespace.
pub open spec fn skip_whitespace(b: Seq<u8>, i: int) -> int
    decreases b.len() - i,
{
    if 0 <= i < b.len() && is_whitespace(b[i]) {
        skip_whitespace(b, i + 1)
    } else {
        i
    }
}

/// The first position at or after `i` that holds a delimiter, or the end of `b`.
pub open spec fn word_end(b: Seq<u8>, i: int) -> int
    decreases b.len() - i,
{
    if 0 <= i < b.len() && !is_delimiter(b[i]) {
        word_end(b, i + 1)
    } else {
        i
    }
}

/// The token that starts the search at `cursor`: `None` when only whitespace is left.
/// A delimiter where a token begins is a token of its own.
pub open spec fn next_token(b: Seq<u8>, cursor: int) -> Option<(int, int)> {
    let s = skip_whitespace(b, cursor);
    if cursor < 0 || s >= b.len() {
        None
    } else {
        let e = word_end(b, s);
        Some((s, if e == s { s + 1 } else { e }))
    }
}

/// The bytes of `source` that a range covers.
pub open spec fn token_bytes(source: &str, beginning: int, end: int) -> Seq<u8> {
    source.spec_bytes().subrange(beginning, end)
}

pub fn is_whitespace_byte(c: u8) -> (r: bool)
    ensures
        r == is_whitespace(c),
{
    c == 32 || c == 13 || c == 10
}

pub fn is_delimiter_byte(c: u8) -> (r: bool)
    ensures
        r == is_delimiter(c),
{
    is_whitespace_byte(c) || c == 44 || c == 40 || c == 41 || c == 58
}

impl Token {
    pub fn new(beginning: usize, end: usize) -> (r: Token)
        ensures
            r.beginning == beginning,
            r.end == end,
    {
        Token { beginning, end }
    }
}

/// Finds the next token at or after `token.beginning`. On success the token holds its range;
/// when only whitespace is left the result is `LexExhausted` and the token is unchanged.
pub fn lex(source: &str, token: &mut Token) -> (r: Result<(), Error>)
    ensures
        match next_token(source.spec_bytes(), old(token).beginning as int) {
            None => r is Err && r->Err_0@ is LexExhausted && *final(token) == *old(token),
            Some((s, e)) => r is Ok && final(token).beginning == s && final(token).end == e,
        },
{
    let bytes = source.as_bytes();
    let n: usize = bytes.len();
    let ghost b = source.spec_bytes();
    let mut i: usize = token.beginning;
    while i < n && is_whitespace_byte(bytes[i])
        invariant
            bytes@ == b,
            n == b.len(),
            old(token).beginning <= i,
            skip_whitespace(b, old(token).beginning as int) == skip_whitespace(b, i as int),
        decreases n - i,
    {
        i = i + 1;
    }
    if i >= n {
        return Err(Error::LexExhausted);
    }
    let mut j: usize = i;
    while j < n && !is_delimiter_byte(bytes[j])
        invariant
            bytes@ == b,
            n == b.len(),
            i <= j <= n,
            word_end(b, i as int) == word_end(b, j as int),
        decreases n - j,
    {
        j = j + 1;
    }
    if j == i {
        j = i + 1;
    }
    token.beginning = i;
    token.end = j;
    Ok(())
}

/// Whether the bytes that `token` covers in `source` are those of `string`.
pub fn token_string_equalp(string: &str, token: &Token, source: &str) -> (r: bool)
    requires
        token.beginning <= token.end <= source.spec_bytes().len(),
    ensures
        r == (token_bytes(source, token.beginning as int, token.end as int) == string.spec_bytes()),
{
    let a = source.as_bytes();
    let w = string.as_bytes();
    let len: usize = token.end - token.beginning;
    if len != w.len() {
        assert(token_bytes(source, token.beginning as int, token.end as int).len() != w@.len());
        return false;
    }
    let mut k: usize = 0;
    while k < len
        invariant
            a@ == source.spec_bytes(),
            w@ == string.spec_bytes(),
            len == w@.len(),
            token.beginning + len == token.end <= a@.len(),
            k <= len,
            forall|m: int| 0 <= m < k ==> a@[token.beginning + m] == w@[m],
        decreases len - k,
    {
        if a[token.beginning + k] != w[k] {
            assert(token_bytes(source, token.beginning as int, token.end as int)[k as int] != w@[k as int]);
            return false;
        }
        k = k + 1;
    }
    assert(token_bytes(source, token.beginning as int, token.end as int) =~= string.spec_bytes());
    true
}

proof fn lemma_skip_whitespace(b: Seq<u8>, i: int)
    requires
        0 <= i,
    ensures
        i <= skip_whitespace(b, i),
        i <= b.len() ==> skip_whitespace(b, i) <= b.len(),
        forall|k: int| i <= k < skip_whitespace(b, i) ==> #[trigger] is_whitespace(b[k]),
        0 <= skip_whitespace(b, i) < b.len() ==> !is_whitespace(b[skip_whitespace(b, i)]),
    decreases b.len() - i,
{
    if 0 <= i < b.len() && is_whitespace(b[i]) {
        lemma_skip_whitespace(b, i + 1);
    }
}

proof fn lemma_word_end(b: Seq<u8>, i: int)
    requires
        0 <= i <= b.len(),
    ensures
        i <= word_end(b, i) <= b.len(),
        forall|k: int| i <= k < word_end(b, i) ==> !#[trigger] is_delimiter(b[k]),
        word_end(b, i) < b.len() ==> is_delimiter(b[word_end(b, i)]),
    decreases b.len() - i,
{
    if 0 <= i < b.len() && !is_delimiter(b[i]) {
        lemma_word_end(b, i + 1);
    }
}

/// A token lies at or after the cursor, is not empty and ends within the source; only
/// whitespace stands between the cursor and the token; a token is either one delimiter or
/// a run of bytes that holds none.
pub proof fn lemma_next_token(b: Seq<u8>, cursor: int)
    ensures
        next_token(b, cursor) matches Some((s, e)) ==> {
            &&& cursor <= s < e <= b.len()
            &&& forall|k: int| cursor <= k < s ==> #[trigger] is_whitespace(b[k])
            &&& !is_whitespace(b[s])
            &&& (e == s + 1 && is_delimiter(b[s])) || (forall|k: int|
                s <= k < e ==> !#[trigger] is_delimiter(b[k]))
            &&& (!is_delimiter(b[s]) && e < b.len()) ==> is_delimiter(b[e])
        },
        0 <= cursor ==> (next_token(b, cursor) is None <==> skip_whitespace(b, cursor) >= b.len()),
{
    if cursor >= 0 {
        lemma_skip_whitespace(b, cursor);
        let s = skip_whitespace(b, cursor);
        if s < b.len() {
            lemma_word_end(b, s);
        }
    }
}

/// Successive tokens, each found from the end of the one before, come in order and do not
/// overlap, and what lies between two of them is whitespace.
pub proof fn lemma_successive_tokens(b: Seq<u8>, cursor: int)
    requires
        0 <= cursor,
    ensures
        next_token(b, cursor) matches Some((s1, e1)) ==> (next_token(b, e1) matches Some((s2, e2))
            ==> {
            &&& cursor <= s1 < e1 <= s2 < e2 <= b.len()
            &&& forall|k: int| e1 <= k < s2 ==> #[trigger] is_whitespace(b[k])
        }),
{
    lemma_next_token(b, cursor);
    if let Some((s1, e1)) = next_token(b, cursor) {
        lemma_next_token(b, e1);
    }
}

/// At the end of the source, or in an empty one, no token is left.
pub proof fn lemma_exhausted(b: Seq<u8>, cursor: int)
    requires
        cursor >= b.len(),
    ensures
        next_token(b, cursor) is None,
{
}

/// A delimiter where a token is expected, after any whitespace, is a token of that one byte.
pub proof fn lemma_delimiter_token(b: Seq<u8>, cursor: int)
    requires
        0 <= cursor,
        skip_whitespace(b, cursor) < b.len(),
        is_delimiter(b[skip_whitespace(b, cursor)]),
    ensures
        next_token(b, cursor) == Some((skip_whitespace(b, cursor), skip_whitespace(b, cursor) + 1)),
{
    lemma_skip_whitespace(b, cursor);
}

/// In valid UTF-8, the position after an ASCII byte that starts a character is a boundary.
pub proof fn lemma_ascii_step(b: Seq<u8>, i: int)
    requires
        valid_utf8(b),
        is_char_boundary(b, i),
        0 <= i < b.len(),
        b[i] < 128,
    ensures
        is_char_boundary(b, i + 1),
    decreases b.len(),
{
    let l = length_of_first_scalar(b);
    let p = pop_first_scalar(b);
    assert(valid_first_scalar(b) && valid_utf8(p));
    if i == 0 {
        assert(l == 1);
        assert(is_char_boundary(p, 0));
    } else {
        assert(is_char_boundary(p, i - l));
        assert(p[i - l] == b[i]);
        lemma_ascii_step(p, i - l);
    }
}

proof fn lemma_whitespace_boundary(b: Seq<u8>, i: int)
    requires
        valid_utf8(b),
        is_char_boundary(b, i),
        0 <= i,
    ensures
        is_char_boundary(b, skip_whitespace(b, i)),
    decreases b.len() - i,
{
    if 0 <= i < b.len() && is_whitespace(b[i]) {
        lemma_ascii_step(b, i);
        lemma_whitespace_boundary(b, i + 1);
    }
}

/// A token found from a character boundary of valid UTF-8 starts and ends on boundaries.
pub proof fn lemma_token_boundaries(b: Seq<u8>, cursor: int)
    requires
        valid_utf8(b),
        is_char_boundary(b, cursor),
        0 <= cursor,
    ensures
        next_token(b, cursor) matches Some((s, e)) ==> is_char_boundary(b, s) && is_char_boundary(b, e),
{
    lemma_next_token(b, cursor);
    lemma_whitespace_boundary(b, cursor);
    if let Some((s, e)) = next_token(b, cursor) {
        if is_delimiter(b[s]) {
            lemma_ascii_step(b, s);
        } else if e == b.len() {
            is_char_boundary_start_end_of_seq(b);
        } else {
            is_char_boundary_iff_not_is_continuation_byte(b, e);
        }
    }
}

/// The characters whose encoding is a range of a source's bytes.
pub open spec fn token_chars(source: &str, beginning: int, end: int) -> Seq<char> {
    decode_utf8(token_bytes(source, beginning, end))
}

/// The text that `token` covers, as an owned string.
pub fn token_text(source: &str, token: &Token) -> (r: String)
    requires
        token.beginning <= token.end,
        is_char_boundary(source.spec_bytes(), token.beginning as int),
        is_char_boundary(source.spec_bytes(), token.end as int),
    ensures
        r@ == token_chars(source, token.beginning as int, token.end as int),
{
    let ghost b = source.spec_bytes();
    proof {
        encode_utf8_valid_utf8(source@);
        valid_utf8_split(b, token.end as int);
    }
    let (head, _) = source.split_at(token.end);
    proof {
        let h = head.spec_bytes();
        if token.beginning < token.end {
            is_char_boundary_iff_not_is_continuation_byte(b, token.beginning as int);
            is_char_boundary_iff_not_is_continuation_byte(h, token.beginning as int);
        } else {
            is_char_boundary_start_end_of_seq(h);
        }
    }
    let (_, piece) = head.split_at(token.beginning);
    proof {
        assert(piece.spec_bytes() =~= token_bytes(source, token.beginning as int, token.end as int));
        encode_utf8_decode_utf8(piece@);
    }
    piece.to_owned()
}

} // verus!
