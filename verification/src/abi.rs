//! Constants shared between userspace and the kernel.
use vstd::prelude::*;

verus! {

/// Software interrupt vector reserved for the experimental userspace ABI.
///
/// Vectors below 32 are CPU exceptions and the legacy PIC is remapped to
/// vectors 32 through 47, so the syscall gate must lie above both ranges.
pub const SYSCALL_VECTOR: u8 = 0x80;

} // verus!
