//! Toolchain for a minimal 8-bit accumulator machine: a textual assembly
//! language, its lowering to one byte per instruction, and an engine that
//! executes those bytes.
//!
//! Source text goes through [`lexer`] to tokens, through [`parser`] to
//! nodes, through [`interop`] to instructions, and through [`scriptorium`]
//! to the bytes of a container; [`assembler`] runs the four in a row. A
//! container read back gives the instructions that [`cpu`] executes and
//! that [`dis`] lists. Each function states what it returns over a
//! mathematical model of its input, and is proved to meet that statement.

pub mod assembler;
pub mod config;
pub mod cpu;
pub mod dis;
pub mod err;
pub mod instruction;
pub mod interop;
pub mod lexer;
pub mod parser;
pub mod results;
pub mod scriptorium;
pub mod text;
