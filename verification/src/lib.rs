//! A tree-walking interpreter for a small dynamically typed scripting
//! language with C-like syntax: variables, blocks, conditionals, loops, and
//! first-class functions with closures.
//!
//! Source text goes through three stages:
//!
//! - the scanner (`scanner`, with `token` and `keywords`) turns text into
//!   tokens and collects all lexical errors;
//! - the parser (`parser`, after the grammar in `grammar`) turns tokens into
//!   the syntax tree of `ast`, or gives the first syntax error;
//! - the interpreter (`interpreter`) walks the tree, with the values of
//!   `value` in the scopes of `environment`.
//!
//! `frontend` puts the first two together.
//!
//! The interpreter is a machine that is advanced step by step. What it
//! cannot do itself, it asks of its host: writing a line, reading the clock,
//! and the arithmetic on numbers that needs rounding. Numbers are IEEE 754
//! double-precision values, carried as bit patterns (`number`). `driver`
//! runs the machine with a host that answers its requests.
//!
//! Every function is verified against a mathematical model of the data it
//! works on. Text is modelled as `Seq<char>`, collections as `Seq` and
//! `Map`, and each data type has a view onto its model. `semantics` says
//! what one step of the machine does, `evaluation` what expressions and
//! statements mean, and `simulation` proves that the machine, step by step,
//! arrives at that meaning.

pub mod text;
pub mod token;
pub mod keywords;
pub mod scanner;
pub mod ast;
pub mod grammar;
pub mod parser;
pub mod frontend;
pub mod number;
pub mod value;
pub mod environment;
pub mod interpreter;
pub mod semantics;
pub mod evaluation;
pub mod simulation;
pub mod driver;
