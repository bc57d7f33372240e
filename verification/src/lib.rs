//! Front end for a small programming language: a lexical scanner that turns
//! source text into tokens, a recursive-descent parser that turns tokens into
//! an abstract syntax tree, and a structured error value with line-oriented
//! rendering. Each pass is single-shot and fail-fast: it returns either its
//! full result or the first error it met, never a partial result.

pub mod bo_error;
pub mod common;
pub mod parser;
pub mod scanner;
