//! A front end for a minimal arithmetic sub-language: one function over
//! unsigned 8-bit inputs whose body is a sequence of single assignments.
//!
//! The crate holds the syntax tree ([`ast`]), the lexer and the parser that
//! build it ([`lexer`], [`parser`]), the rewrite framework and the two
//! analysis passes ([`visitors`]), the diagnostics they report ([`messages`])
//! and the pipeline that runs them in order ([`pipeline`]).

pub mod ast;
pub mod lexer;
pub mod messages;
pub mod parser;
pub mod pipeline;
pub mod text;
pub mod visitors;
