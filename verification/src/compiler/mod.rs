//! The compiler front end: sources, positions and tokens.

pub mod ast;
pub mod context;
pub mod interner;
pub mod lexer;
pub mod source;
