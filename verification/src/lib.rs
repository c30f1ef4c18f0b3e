//! A small dynamically typed scripting language: a scanner, a recursive
//! descent parser that records source spans, and an evaluator that runs the
//! statement tree against a chain of lexical scopes.
//!
//! Source text goes through three stages:
//!
//! - `lexer` turns text into tokens, each with its byte offset and length;
//! - `parser` turns tokens into statements, or into the first syntax error;
//! - `machine` runs statements in an `interpreter::Environment`.
//!
//! `scan_and_parse` in `parser` does the first two at once. What a program
//! means is written down in `semantics`, and `refinement` shows that the
//! machine does what the program means.
//!
//! Numbers are IEEE 754 doubles, and this crate uses no floating point. It
//! holds a number by its bits, compares numbers by their bits, and asks
//! whoever drives the machine to read numerals, to do arithmetic and to
//! write numbers: see `machine::Request`.

pub mod ast;
pub mod interpreter;
pub mod lexer;
pub mod machine;
pub mod parser;
pub mod refinement;
pub mod round_trip;
pub mod semantics;
pub mod text;
