//! Front end for a small, dynamically typed, C-like scripting language:
//! a lexical scanner that turns UTF-8 source bytes into a stream of typed
//! tokens with byte-offset spans, and a Pratt (precedence-climbing) parser
//! that turns the token stream into an abstract syntax tree, with
//! source-accurate diagnostics on failure.

pub mod ast;
pub mod cursor;
pub mod diagnostics;
pub mod parser;
pub mod render;
pub mod scanner;
pub mod token;

