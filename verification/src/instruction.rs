//! The eight instructions and the characters that denote them.

use vstd::prelude::*;

verus! {

/// One of the eight instructions of the language.
#[derive(Debug, Clone, Copy, PartialEq, Eq, Structural)]
pub enum RawInstruction {
    /// `+`: add one to the cell at the pointer.
    Increment,
    /// `-`: subtract one from the cell at the pointer.
    Decrement,
    /// `[`: open a loop.
    LoopOpen,
    /// `]`: close a loop.
    LoopClose,
    /// `>`: move the pointer one cell to the right.
    RightShift,
    /// `<`: move the pointer one cell to the left.
    LeftShift,
    /// `.`: write the cell at the pointer.
    Output,
    /// `,`: read into the cell at the pointer.
    Input,
}

/// The characters that denote an instruction.
pub open spec fn instruction_alphabet() -> Set<char> {
    set!['+', '-', '<', '>', '.', ',', '[', ']']
}

/// Whether `c` denotes an instruction.
pub open spec fn is_instruction_char(c: char) -> bool {
    instruction_alphabet().contains(c)
}

/// The instruction that `c` denotes, if it denotes one.
pub open spec fn classify(c: char) -> Option<RawInstruction> {
    if c == '+' {
        Some(RawInstruction::Increment)
    } else if c == '-' {
        Some(RawInstruction::Decrement)
    } else if c == '[' {
        Some(RawInstruction::LoopOpen)
    } else if c == ']' {
        Some(RawInstruction::LoopClose)
    } else if c == '>' {
        Some(RawInstruction::RightShift)
    } else if c == '<' {
        Some(RawInstruction::LeftShift)
    } else if c == '.' {
        Some(RawInstruction::Output)
    } else if c == ',' {
        Some(RawInstruction::Input)
    } else {
        None
    }
}

impl RawInstruction {
    /// The character that denotes this instruction.
    pub open spec fn symbol(self) -> char {
        match self {
            RawInstruction::Increment => '+',
            RawInstruction::Decrement => '-',
            RawInstruction::LoopOpen => '[',
            RawInstruction::LoopClose => ']',
            RawInstruction::RightShift => '>',
            RawInstruction::LeftShift => '<',
            RawInstruction::Output => '.',
            RawInstruction::Input => ',',
        }
    }

    /// What this instruction does, in words.
    pub open spec fn description(self) -> Seq<char> {
        match self {
            RawInstruction::Increment => "Increment value at pointer"@,
            RawInstruction::Decrement => "Decrement value at pointer"@,
            RawInstruction::LoopOpen => "Start looping"@,
            RawInstruction::LoopClose => "Stop looping"@,
            RawInstruction::RightShift => "Increment pointer"@,
            RawInstruction::LeftShift => "Decrement pointer"@,
            RawInstruction::Output => "Output byte at pointer"@,
            RawInstruction::Input => "Read byte of input to location at pointer"@,
        }
    }

    /// Classifies one character: the instruction it denotes, or `None` for
    /// any character outside the alphabet.
    pub fn from_char(c: char) -> (r: Option<RawInstruction>)
        ensures
            r == classify(c),
            r is Some <==> is_instruction_char(c),
            r matches Some(k) ==> k.symbol() == c,
    {
        match c {
            '+' => Some(Self::Increment),
            '-' => Some(Self::Decrement),
            '[' => Some(Self::LoopOpen),
            ']' => Some(Self::LoopClose),
            '>' => Some(Self::RightShift),
            '<' => Some(Self::LeftShift),
            '.' => Some(Self::Output),
            ',' => Some(Self::Input),
            _ => None,
        }
    }

    /// The description of this instruction, as it is shown to a reader.
    pub fn to_string(&self) -> (text: String)
        ensures
            text@ == self.description(),
    {
        let words = match self {
            Self::Increment => "Increment value at pointer",
            Self::Decrement => "Decrement value at pointer",
            Self::LoopOpen => "Start looping",
            Self::LoopClose => "Stop looping",
            Self::RightShift => "Increment pointer",
            Self::LeftShift => "Decrement pointer",
            Self::Output => "Output byte at pointer",
            Self::Input => "Read byte of input to location at pointer",
        };
        words.to_owned()
    }
}

/// A character is classified exactly when it belongs to the alphabet, and
/// then as the one instruction that it denotes.
pub proof fn lemma_classification(c: char)
    ensures
        classify(c) is Some <==> is_instruction_char(c),
        forall|k: RawInstruction| classify(c) == Some(k) <==> k.symbol() == c,
{
}

/// Every instruction is the classification of its own symbol, so distinct
/// instructions have distinct symbols.
pub proof fn lemma_symbol_classifies_back(k: RawInstruction)
    ensures
        classify(k.symbol()) == Some(k),
        is_instruction_char(k.symbol()),
{
}

} // verus!
