use vstd::prelude::*;

verus! {

/// A fatal condition of the interpreter. Every variant ends the current
/// machine: the host decides whether to halt, reset, or report.
#[derive(Clone, Copy, Debug, PartialEq, Eq, Structural)]
pub enum VmError {
    /// `RET` executed while the stack was empty.
    StackUnderflow,
    /// `CALL` executed while the stack pointer was already at its limit.
    StackOverflow,
    /// The decoded instruction matches no entry of the dispatch table.
    UnknownOpcode,
    /// A memory read or write whose index is at or past the 4096-byte end.
    MemoryOutOfRange,
    /// A program longer than the space above the reserved region.
    ProgramTooLarge,
}

} // verus!
