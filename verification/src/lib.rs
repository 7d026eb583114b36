//! Front end of the Monkey language: a pull-based tokenizer and a
//! statement-level recursive-descent parser that records syntax errors
//! instead of stopping at the first one.

pub mod ast;
pub mod lexer;
pub mod parser;
pub mod text;
pub mod token;
