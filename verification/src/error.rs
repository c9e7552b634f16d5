//! The reasons for which an operation on the graph is refused.

use vstd::prelude::*;

verus! {

/// Why an operation was refused. A refused operation changes nothing.
#[derive(Clone, Copy, Debug, PartialEq, Eq, Structural)]
pub enum IrError {
    /// A block or instruction identity is already taken in the graph.
    DuplicateId,
    /// No block of the graph has the given identity.
    UnknownBlock,
    /// No instruction of the graph has the given identity.
    UnknownInstruction,
    /// The instruction's variant does not take the operation.
    UnsupportedOperation,
    /// The operand list has the wrong length for the instruction's variant.
    ArityMismatch,
    /// The builder has no current block, or no current instruction.
    InvalidCursorState,
    /// The identity is the link sentinel, or the block is the end block,
    /// which holds no instructions.
    ReservedId,
}

impl IrError {
    /// Whether the error reports a reference to something that does not exist.
    pub fn is_unknown_reference(&self) -> (b: bool)
        ensures
            b == (*self == IrError::UnknownBlock || *self == IrError::UnknownInstruction),
    {
        match self {
            IrError::UnknownBlock => true,
            IrError::UnknownInstruction => true,
            _ => false,
        }
    }
}

} // verus!
