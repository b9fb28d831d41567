//! Source management and lexical analysis for the dek expression language.
//!
//! A [`compiler::source::SourceMap`] gives every loaded source its own slice of
//! one shared space of byte offsets; a [`compiler::source::lexer::Lexer`] turns
//! a source's text into tokens whose spans lie in that slice.

pub mod compiler;
pub mod vm;
