//! A toolchain for a small 16-bit stack virtual machine: a bytecode codec,
//! an assembler pipeline (lexer, parser, compiler), and the machine itself
//! with its typed operand stack and dual-region heap.

pub mod assembler;
pub mod codec;
pub mod compiler;
pub mod exec;
pub mod heap;
pub mod instruction;
pub mod lexer;
pub mod parser;
pub mod vm;
pub mod word;
