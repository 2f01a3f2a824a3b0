//! x86_64 mechanisms whose arithmetic and layout can be stated exactly.
use vstd::prelude::*;

pub mod context;
pub mod gdt;
pub mod interrupts;
pub mod keyboard;
pub mod paging;
pub mod preemption;
pub mod serial;

verus! {

/// Name of the architecture this kernel targets.
pub const NAME: &'static str = "x86_64";

} // verus!
