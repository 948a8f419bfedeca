//! Events recorded by the execution engine.

use vstd::prelude::*;

verus! {

/// Fence instruction event.
///
/// Holds what is needed to prove one occurrence of a RISC-V FENCE operation.
#[derive(Debug, Clone, Copy, PartialEq, Eq, Structural)]
pub struct FenceEvent {
    /// The program counter at issue time.
    pub pc: u32,
}

impl FenceEvent {
    /// Creates a new [`FenceEvent`] issued at program counter `pc`.
    #[must_use]
    pub fn new(pc: u32) -> (event: Self)
        ensures
            event == (FenceEvent { pc }),
    {
        Self { pc }
    }
}

} // verus!
