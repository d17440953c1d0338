//! A tree-walking interpreter for a small Lox-like scripting language:
//! a lexer, a recursive-descent parser and an evaluator, each specified
//! by a functional model that the executable code is proved to follow.
//!
//! - `scanner`: source bytes to tokens (`scan_tokens_of`, `scan_errors_of`).
//! - `parser`: tokens to declarations (`parse_program`). Missing `;`, `)`
//!   or `}` are reported and parsing goes on without consuming; a token
//!   that cannot start an expression, a missing variable name, or a number
//!   literal out of range aborts the parse.
//! - `interpreter`: declarations to output values (`exec_decls`, `eval`).
//! - `driver`: the commands `tokenize`, `parse` and `evaluate` as lines
//!   of output and an exit status (`run_model`).
//! - `layout`: what layout between lexemes can and cannot change.
//!
//! Design choices:
//! - Scoping is lexical: a block's declarations shadow outer ones and end
//!   with the block; an assignment writes the innermost declaration of the
//!   name and fails when there is none.
//! - Numbers are exact rationals in lowest terms whose parts fit in `i64`;
//!   a result that does not fit is a runtime error ("Number out of range.")
//!   rather than a rounded value. Division by zero is an error.
//! - Each time a `while` loop starts it may run at most a given number of
//!   iterations (the interpreter's budget); `evaluate` sets it to
//!   `u64::MAX`.
//! - An expression statement, like `print`, outputs its value.

pub mod text;
pub mod token;
pub mod report;
pub mod scanner;
pub mod number;
pub mod ast;
pub mod parser;
pub mod environment;
pub mod interpreter;
pub mod driver;
pub mod layout;
