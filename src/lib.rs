//! A small 16-bit virtual machine with its symbolic assembler.
//!
//! `arch` holds the instruction set: opcodes, registers, the two-word
//! instruction encoding and the word memory. `lexer` turns a source line
//! into tokens, `assembler` turns the tokens of all lines into a program
//! image, and `vm` executes such an image one instruction at a time.
pub mod arch;
pub mod lexer;
pub mod assembler;
pub mod vm;
