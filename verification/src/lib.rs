//! A minimal S-expression language: a recursive-descent parser that turns one
//! line of text into a `Value` tree, and an evaluator that reduces that tree
//! with a small fixed table of arithmetic operators over arbitrary-precision
//! integers.

pub mod bignum;
pub mod eval;
pub mod parse;
pub mod value;

pub use eval::eval;
pub use eval::num_oper;
pub use eval::EvalError;
pub use parse::parse;
pub use parse::ParseError;
pub use value::Value;
