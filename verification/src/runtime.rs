//! Values, scopes and evaluation.
pub mod builtin;
pub mod environment;
pub mod evaluator;
pub mod interpreter;
pub mod number;
pub mod types;
