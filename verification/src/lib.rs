//! A small expression language: a lexer, a recursive-descent parser and a
//! tree-walking evaluator over chained scopes.
//!
//! Source text becomes tokens, tokens become statements, and statements are
//! evaluated against an environment. Every stage is specified by a spec
//! function over plain sequences, and the executable code is proved to
//! compute exactly what that function says.
pub mod frontend;
pub mod runtime;
