use vstd::prelude::*;

verus! {

/// Failures reported by the tokenizer, the scope table and the parser.
#[derive(Debug)]
pub enum Error {
    /// No token is left in the source.
    LexExhausted,
    /// A scope table key that is not a symbol.
    InvalidKeyType,
    /// A declared type that the `types` scope does not know; holds its name.
    TypeError(String),
    /// A token that fits no production; holds its text (empty for a truncated input).
    SyntaxError(String),
}

/// What an `Error` says, with its text as characters.
pub enum ErrorModel {
    LexExhausted,
    InvalidKeyType,
    TypeError(Seq<char>),
    SyntaxError(Seq<char>),
}

impl View for Error {
    type V = ErrorModel;

    open spec fn view(&self) -> ErrorModel {
        match self {
            Error::LexExhausted => ErrorModel::LexExhausted,
            Error::InvalidKeyType => ErrorModel::InvalidKeyType,
            Error::TypeError(s) => ErrorModel::TypeError(s@),
            Error::SyntaxError(s) => ErrorModel::SyntaxError(s@),
        }
    }
}

} // verus!
