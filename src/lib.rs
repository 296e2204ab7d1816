//! A small stack-based bytecode virtual machine: the instruction set, the
//! big-endian operand encoding, the execution engine, a two-pass assembler
//! and a disassembler.

pub mod codec;
pub mod op;
pub mod text;
pub mod float_bits;
pub mod runner;
pub mod lexer;
pub mod assembler;
pub mod disassembler;
pub mod header;
