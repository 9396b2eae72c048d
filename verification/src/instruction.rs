//! The instruction set of the tape machine.

use vstd::prelude::*;

verus! {

/// One instruction of a compiled program.
///
/// The two loop instructions carry the position, in the instruction
/// sequence, of the loop instruction they are paired with.
#[derive(Clone, Copy, Debug, PartialEq, Eq, Structural)]
pub enum Instruction {
    /// Move the data pointer one cell to the right.
    Right,
    /// Move the data pointer one cell to the left.
    Left,
    /// Add one to the current cell, modulo 256.
    Increment,
    /// Subtract one from the current cell, modulo 256.
    Decrement,
    /// Emit the current cell as one output byte.
    Print,
    /// Overwrite the current cell with one input byte.
    Read,
    /// Skip to the paired `EndLoop` when the current cell is zero.
    BeginLoop(usize),
    /// Go back to the paired `BeginLoop` when the current cell is not zero.
    EndLoop(usize),
}

impl Instruction {
    /// What the instruction adds to the loop nesting depth.
    pub open spec fn nesting(self) -> int {
        match self {
            Instruction::BeginLoop(_) => 1,
            Instruction::EndLoop(_) => -1,
            _ => 0,
        }
    }

    /// The instruction with its jump target, if it has one, set to zero.
    pub open spec fn bare(self) -> Instruction {
        match self {
            Instruction::BeginLoop(_) => Instruction::BeginLoop(0),
            Instruction::EndLoop(_) => Instruction::EndLoop(0),
            other => other,
        }
    }

    /// The jump target of a loop instruction.
    pub open spec fn target(self) -> int {
        match self {
            Instruction::BeginLoop(t) => t as int,
            Instruction::EndLoop(t) => t as int,
            _ => 0,
        }
    }
}

} // verus!
