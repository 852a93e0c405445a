//! A tree-walking interpreter for a small dynamically typed expression
//! language, together with its runtime object model and a mark-and-sweep
//! garbage collector over an arena of heap boxes.
//!
//! The pipeline is: `lexer` turns source text into `token::Token`s, a parser
//! builds the `ast` nodes, and `evaluator` walks the tree, keeping every
//! binding in a `gc`-managed heap box and every scope in an arena of
//! `object::Environment`s.  `semantics` gives the mathematical meaning of
//! evaluation that the evaluator is proved to implement.  `mini` holds a
//! small, self-contained parser for integer and identifier expressions.

pub mod token;

pub mod error;

pub mod ast;

pub mod object;

pub mod builtin;

pub mod evalerror;

pub mod gc;

pub mod semantics;

pub mod evaluator;

pub mod lexer;

pub mod mini;
