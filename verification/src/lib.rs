//! A two-pass assembler for the 6502 instruction set: source text goes through
//! a lexer, a resolver that builds semantic nodes, and a code generator that
//! emits the binary image and patches label references.
//!
//! Each phase has its file, and beside it the file that says what the phase
//! computes: `parser` and `scan`, `ast` and `grammar`, `code_gen` and `image`.
//! `relocation` holds what is proved of references to labels.

pub mod ast;
pub mod code_gen;
pub mod context;
pub mod directive;
pub mod grammar;
pub mod image;
pub mod opcode;
pub mod parser;
pub mod relocation;
pub mod scan;
pub mod tool;
