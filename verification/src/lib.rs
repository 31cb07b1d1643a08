//! A just-in-time compiler for an eight-symbol minimal language.
//!
//! The library parses source text into an operation sequence, encodes the
//! sequence as native x86-64 machine code in a page-sized buffer, and also
//! offers a textual-assembly emitter and a tree-walking interpreter that
//! consume the same operation sequence.

pub mod compiler;
pub mod interpreter;
pub mod jit;
pub mod parser;
pub mod text;
