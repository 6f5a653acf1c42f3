//! Front end of a small expression language: a lexer, a recursive-descent
//! parser with operator precedence, and the syntax tree they build.
//!
//! Every executable function carries a contract stated over mathematical
//! models: the source buffer is a sequence of bytes, the lexer's output is the
//! sequence `scan::lexemes` of that buffer, and the parser's result is the
//! value of the functions in `grammar` on that sequence.
//!
//! - `token`, `scan`, `lexer`: tokens, the lexical structure of a buffer, and
//!   the lexer that reads it.
//! - `ast`, `error`, `grammar`, `parser`: trees, failures, the grammar, and the
//!   parser that follows it.
//! - `blank`, `progress`, `results`, `unparse`: what holds of every buffer and
//!   of every parse. Whitespace and comments between tokens change nothing;
//!   what is parsed is taken from the front of the input; trees hold known
//!   operators only and failures report where the parser stopped; and a tree
//!   is read back from what it is written as.
//! - `visit`, `names`: what a code generator needs of a tree, the order of its
//!   nodes and a table of named values.

pub mod ast;
pub mod blank;
pub mod error;
pub mod grammar;
pub mod lexer;
pub mod names;
pub mod parser;
pub mod progress;
pub mod results;
pub mod scan;
pub mod token;
pub mod unparse;
pub mod visit;
