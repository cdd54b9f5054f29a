//! An interpreter pipeline for a small imperative language whose statements
//! are written as song lyrics: a line lexer, an expression tokenizer and
//! parser, a bytecode compiler and a stack machine that runs the bytecode.

pub mod text;
pub mod error;
pub mod util;
pub mod float;
pub mod expr;
pub mod tokenizer;
pub mod eval;
pub mod stdlib;
pub mod lexer;
pub mod compiler;
pub mod interpreter;
pub mod optimizer;
