//! A toy compiler for a subset of C, from source text to x86-64 assembly.
//!
//! The passes run in this order: lexing, parsing, identifier resolution,
//! type checking, loop labeling, translation to the TACKY intermediate
//! representation, translation to assembly, replacement of pseudo registers
//! by stack slots, instruction fix-up and finally emission of assembly text.
pub mod assembly;
pub mod code_emission;
pub mod lexer;
pub mod parser;
pub mod semantic_analysis;
pub mod tacky;
pub mod text;
