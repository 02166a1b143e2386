//! A token: one instruction together with the place where it stands.

use vstd::prelude::*;
use crate::instruction::RawInstruction;

verus! {

/// The mathematical value of a token: an instruction with the line and the
/// column of the character that denotes it, both counted from one.
pub struct Token {
    pub kind: RawInstruction,
    pub line: int,
    pub column: int,
}

/// One instruction of a source text, with the line and the column of the
/// character that denotes it.
#[derive(Debug, Clone, Copy, PartialEq, Eq, Structural)]
pub struct RawInstructionStruct {
    raw_instruction: RawInstruction,
    line: u64,
    column: u64,
}

impl View for RawInstructionStruct {
    type V = Token;

    closed spec fn view(&self) -> Token {
        Token { kind: self.raw_instruction, line: self.line as int, column: self.column as int }
    }
}

impl RawInstructionStruct {
    /// A token names a place in a text when its line and its column are at
    /// least one.
    pub open spec fn well_formed(&self) -> bool {
        self@.line >= 1 && self@.column >= 1
    }

    /// Makes the token for `raw_instruction` at `line` and `column`.
    pub fn new(raw_instruction: RawInstruction, line: u64, column: u64) -> (token: Self)
        ensures
            token@ == (Token { kind: raw_instruction, line: line as int, column: column as int }),
    {
        Self { raw_instruction, line, column }
    }

    /// The instruction.
    pub fn raw_instruction(&self) -> (kind: RawInstruction)
        ensures
            kind == self@.kind,
    {
        self.raw_instruction
    }

    /// The line of the instruction's character, counted from one.
    pub fn line(&self) -> (line: u64)
        ensures
            line == self@.line,
    {
        self.line
    }

    /// The column of the instruction's character within its line, counted
    /// from one.
    pub fn column(&self) -> (column: u64)
        ensures
            column == self@.column,
    {
        self.column
    }
}

} // verus!
