use vstd::prelude::*;

verus! {

/// Conditions under which the interpreter refuses to execute an instruction.
#[derive(Debug, Clone, Copy, PartialEq, Eq, Structural)]
pub enum ProcessorError {
    /// The instruction word belongs to no supported family, or its family
    /// does not cover the low nibble or operand it carries.
    UnimplementedOpcode { opcode: u16 },
    /// A subroutine call was made with all sixteen return slots in use.
    StackOverflow { opcode: u16 },
}

} // verus!
