//! An expression language over integers, decimals and nested arrays: a
//! lexer, a precedence-climbing parser and a tree-walking evaluator.
//!
//! A text is cut into tokens ([`lexer`]), the tokens are parsed to syntax
//! trees ([`grammar`], [`parser`], [`ast`]), and the trees are evaluated
//! against a stack of scopes ([`semantics`], [`interpreter`], [`memory`])
//! to values ([`value`], [`arithmetic`], [`operators`]).
//!
//! The library holds no floating-point arithmetic. A decimal is kept as the
//! bits of its encoding, and what is computed with decimals is asked of an
//! arithmetic unit that the caller supplies ([`decimal`]). The contracts say
//! what the unit is asked, and that the results hold what it answered.

pub mod arithmetic;
pub mod ast;
pub mod decimal;
pub mod error;
pub mod grammar;
pub mod interpreter;
pub mod lexer;
pub mod memory;
pub mod operators;
pub mod parser;
pub mod render;
pub mod semantics;
pub mod symbol;
pub mod text;
pub mod value;
