//! A lexer for Brainfuck source text.
//!
//! The language has eight one-character instructions; every other character
//! is commentary. [`tokenize`] turns a text into the sequence of its
//! instructions, each tagged with the line and the column where it stands.

pub mod instruction;
pub mod lexer;
pub mod position;
pub mod token;

pub use instruction::RawInstruction;
pub use lexer::tokenize;
pub use token::{RawInstructionStruct, Token};
