//! A lexer and recursive-descent parser for JSX: elements, fragments,
//! attributes and embedded host-language expressions found inline in source
//! text. Parsing yields a positioned syntax tree in which every node carries
//! the half-open range of characters it was read from.
//!
//! - `lex`: the lexer, and what a token is written as.
//! - `ast`: the syntax tree.
//! - `grammar`: what each production reads, as functions on the source.
//! - `parser`: the productions.
//! - `laws`, `shape`: what holds of everything that is read.
//! - `transform`: the tokens with which an element or a fragment begins.

pub mod ast;
pub mod error;
pub mod grammar;
pub mod ident;
pub mod laws;
pub mod lex;
pub mod loc;
pub mod parser;
pub mod shape;
pub mod transform;
