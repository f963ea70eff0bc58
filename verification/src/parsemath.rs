//! A front end for arithmetic expressions: text to tokens, tokens to a tree.
pub mod ast;
pub mod error;
pub mod evaluation;
pub mod grammar;
pub mod notation;
pub mod parser;
pub mod token;
pub mod tokenizer;
