//! From source text to syntax trees.
pub mod ast;
pub mod literal;
pub mod parser;
pub mod text;
pub mod token;
pub mod tokenizer;
pub mod utils;
