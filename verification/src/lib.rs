//! An interpreter for arithmetic expressions: a parser from text to a syntax
//! tree, and an evaluator of such trees against the bindings of their variables.
//!
//! The expressions are made of numbers, variables, parentheses, the operators
//! `+ - * / % ^` and calls of a few builtin functions. [`parse::expression_p`]
//! reads a text as the tree that [`grammar::expression`] assigns to it.
//! [`interpreter::interpret`] walks a tree as [`interpreter::eval`] says: it
//! decides what is computed, in which order, and what fails.
//!
//! Numbers are binary64 values, held as their bits ([`number::Binary64`]).
//! This crate compares them with zero and converts integers to them; it does
//! not compute with them. An evaluation hands each computation out as a
//! [`interpreter::Request`] and takes its result back, so that the one who
//! evaluates supplies the arithmetic.
//!
//! Two functions are taken from the `nom` crate without proof, both in
//! [`literal`]: the recogniser of floating point literals and the recogniser
//! of integers.

pub mod number;
pub mod text;
pub mod ast;
pub mod functions;
pub mod environment;
pub mod interpreter;
pub mod literal;
pub mod grammar;
pub mod parse;
