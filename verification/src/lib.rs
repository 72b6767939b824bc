//! A single-pass translator for a small imperative language (variables,
//! arithmetic, conditionals, loops, labeled jumps, formatted print/input)
//! into C source text.
//!
//! The pipeline is a character-level lexer, a one-token-lookahead
//! recursive-descent parser, and a streaming emitter with separate header
//! and body buffers. Translation happens in one left-to-right pass with no
//! intermediate syntax tree; the emitted text is materialized only after a
//! fully successful parse.

pub mod cemitter;
pub mod emit;
pub mod error;
pub mod laws;
pub mod lex;
pub mod parse;
pub mod token;
