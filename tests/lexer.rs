use minilang::error::Error;
use minilang::lexer::{lex, token_string_equalp, Token};

fn tokens(source: &str) -> Vec<(usize, usize)> {
    let mut out = Vec::new();
    let mut t = Token::new(0, 0);
    while lex(source, &mut t).is_ok() {
        out.push((t.beginning, t.end));
        t.beginning = t.end;
    }
    out
}

#[test]
fn lex_empty_source_is_exhausted() {
    let mut t = Token::new(0, 0);
    assert!(matches!(lex("", &mut t), Err(Error::LexExhausted)));
    assert_eq!(t, Token::new(0, 0));
}

#[test]
fn lex_cursor_at_end_is_exhausted() {
    let mut t = Token::new(3, 3);
    assert!(matches!(lex("abc", &mut t), Err(Error::LexExhausted)));
}

#[test]
fn lex_only_whitespace_is_exhausted() {
    let mut t = Token::new(0, 0);
    assert!(matches!(lex(" \r\n  ", &mut t), Err(Error::LexExhausted)));
}

#[test]
fn lex_skips_whitespace_and_splits_on_delimiters() {
    assert_eq!(tokens("  foo bar"), vec![(2, 5), (6, 9)]);
}

#[test]
fn lex_leading_colon_is_its_own_token() {
    let src = ":integer";
    let mut t = Token::new(0, 0);
    assert!(lex(src, &mut t).is_ok());
    assert_eq!((t.beginning, t.end), (0, 1));
    assert!(token_string_equalp(":", &t, src));
}

#[test]
fn lex_each_delimiter_is_one_token() {
    let src = "f(a,b):c";
    let texts: Vec<&str> = tokens(src).into_iter().map(|(b, e)| &src[b..e]).collect();
    assert_eq!(texts, vec!["f", "(", "a", ",", "b", ")", ":", "c"]);
}

#[test]
fn lex_tokens_are_ordered_and_disjoint() {
    let src = "a : integer = 69\r\ndefun foo (x:integer) { }";
    let toks = tokens(src);
    let mut last_end = 0;
    for (b, e) in &toks {
        assert!(last_end <= *b && b < e && *e <= src.len());
        assert!(src.as_bytes()[last_end..*b].iter().all(|c| *c == b' ' || *c == b'\r' || *c == b'\n'));
        last_end = *e;
    }
    assert_eq!(toks.len(), 14);
}

#[test]
fn lex_works_on_bytes_of_multibyte_text() {
    let src = "é:ü";
    assert_eq!(tokens(src), vec![(0, 2), (2, 3), (3, 5)]);
}

#[test]
fn token_string_equalp_compares_text() {
    let src = "hello world";
    let t = Token::new(6, 11);
    assert!(token_string_equalp("world", &t, src));
    assert!(!token_string_equalp("worl", &t, src));
    assert!(!token_string_equalp("hello", &t, src));
}
