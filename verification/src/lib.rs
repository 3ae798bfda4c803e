//! Assembler front-end for a small fixed-width 32-bit instruction set.
//!
//! The library turns mnemonic source text into per-line diagnostics: a
//! recognized label, a fully bit-packed machine word, or a classified error.

pub mod history;
pub mod instructions;
pub mod laws;
pub mod parser;
pub mod text;
