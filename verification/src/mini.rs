//! A small, self-contained parser for `let`, `return` and integer
//! expressions: the first slice of the language's grammar, kept with its own
//! token alphabet.

pub mod parser;

pub mod token;
