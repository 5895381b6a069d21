//! A small stack-based language processor for a Forth-like dialect.
//!
//! Source text is tokenized into a flat token sequence, run through two
//! structural passes (word definitions and conditional markers), and executed
//! against a bounded stack of signed 16-bit values.  Output-producing
//! operations record their output as values; rendering them to text is a
//! separate, pure step, so that the surrounding program decides where the
//! text goes.

pub mod builtins;
pub mod errors;
pub mod interpreter;
pub mod output;
pub mod parser;
pub mod stack;
pub mod structure;
pub mod text;
