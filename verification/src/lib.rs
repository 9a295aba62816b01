//! A JavaScript front end: the lexer, the parser with its syntax tree and
//! its grammar as a model, the interpreter's code cursor, the logging filters, the calendar arithmetic
//! behind `Date`, and the pure parts of the Test262 runner, with their
//! contracts proved by Verus (two wrappers over std are trusted).
#![allow(unused_imports)]

use vstd::prelude::*;

pub mod text;
pub mod code_index;
pub mod token;
pub mod chars;
pub mod lexer;
pub mod log;
pub mod calendar;
pub mod radix;
pub mod regex_flags;
pub mod runner;
pub mod ast;
pub mod parser;
pub mod grammar;
pub mod parse;

pub use code_index::CodeIndex;

verus! {
} // verus!
