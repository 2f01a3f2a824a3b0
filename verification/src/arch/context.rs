//! Saved cooperative execution context.
use vstd::prelude::*;

verus! {

/// Saved callee-saved register context: the stack pointer at which the
/// callee-saved registers were pushed.
#[derive(Debug, Clone, Copy, PartialEq, Eq, Structural)]
pub struct Context {
    pub stack_pointer: u64,
}

impl Context {
    /// A context that has never been saved.
    pub fn empty() -> (c: Self)
        ensures
            c.stack_pointer == 0,
    {
        Context { stack_pointer: 0 }
    }
}

/// Words saved below a fresh cooperative context's stack pointer.
pub const SAVED_WORDS: usize = 8;

/// Bytes of the initial cooperative frame.
pub const INITIAL_FRAME_SIZE: usize = 64;

/// `address` rounded down to a 16-byte boundary.
pub open spec fn align16_down(address: int) -> int {
    (address / 16) * 16
}

/// A fresh cooperative context and the words to store at its stack pointer,
/// lowest address first: `r15`, `r14`, `r13` (the entry), `r12` (the
/// argument), `rbx`, `rbp`, the trampoline as return address, and a fake
/// return slot that keeps the SysV stack alignment.
#[derive(Debug, Clone, Copy, PartialEq, Eq)]
pub struct InitialFrame {
    pub context: Context,
    pub words: [u64; SAVED_WORDS],
}

/// Lays out the frame that starts a fresh cooperative context on the stack
/// `[stack_bottom, stack_bottom + stack_len)`: the frame ends at the stack
/// top rounded down to 16 bytes.
pub fn prepare(
    stack_bottom: usize,
    stack_len: usize,
    entry: u64,
    argument: u64,
    trampoline: u64,
) -> (f: InitialFrame)
    requires
        stack_bottom + stack_len <= usize::MAX,
        align16_down(stack_bottom + stack_len) >= stack_bottom + INITIAL_FRAME_SIZE,
    ensures
        f.context.stack_pointer == align16_down(stack_bottom + stack_len) - INITIAL_FRAME_SIZE,
        f.words@ == seq![0, 0, entry, argument, 0, 0, trampoline, 0u64],
{
    let end = stack_bottom + stack_len;
    let aligned_end = end & !0xfusize;
    assert(aligned_end == (end / 16) * 16) by (bit_vector)
        requires
            aligned_end == end & !0xfusize,
    ;
    let frame = aligned_end - INITIAL_FRAME_SIZE;
    let words: [u64; SAVED_WORDS] = [0, 0, entry, argument, 0, 0, trampoline, 0];
    assert(words@ =~= seq![0, 0, entry, argument, 0, 0, trampoline, 0u64]);
    InitialFrame { context: Context { stack_pointer: frame as u64 }, words }
}

} // verus!
