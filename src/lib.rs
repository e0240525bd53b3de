//! A small recursive-descent compiler for arithmetic expressions: a tokenizer,
//! a symbol resolver, an operator-precedence grammar and the constant-folding
//! decision, each verified against a specification over the input bytes.
use vstd::prelude::*;

pub mod error;
pub mod expr;
pub mod fold;
pub mod lexer;
pub mod parser;
pub mod resolve;

pub use error::TinyExprError;
pub use expr::{Expr, ExprType, Op, Variable};
pub use fold::is_foldable;
pub use parser::{compile, parse};

verus! {

} // verus!
