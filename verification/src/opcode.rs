//! Opcode metadata that the execution engine hands to the chips.

use vstd::prelude::*;

verus! {

/// The default increment of the program counter from one instruction to the
/// next.
pub const DEFAULT_PC_INC: u32 = 4;

/// The numeric identifiers that the execution engine gives to the opcodes.
/// Built once and shared by every chip.
#[derive(Debug, Clone, Copy, PartialEq, Eq, Structural)]
pub struct OpcodeTable {
    /// The identifier of the FENCE opcode.
    pub fence: u32,
}

} // verus!
