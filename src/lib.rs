pub mod environment;
pub mod error;
pub mod grammar;
pub mod lexer;
pub mod node;
pub mod parser;
pub mod render;
