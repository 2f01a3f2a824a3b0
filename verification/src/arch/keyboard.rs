//! The last PS/2 scancode received on IRQ1.
//!
//! The interrupt handler only stores the byte it read from the keyboard data
//! port; consumers take it later outside interrupt context. Zero means that no
//! scancode is pending.
use vstd::prelude::*;

verus! {

/// Keyboard data port.
pub const KEYBOARD_DATA_PORT: u16 = 0x60;

/// What taking from a latch that holds `held` returns.
pub open spec fn take_result(held: u8) -> Option<u8> {
    if held == 0 {
        None
    } else {
        Some(held)
    }
}

/// A one-byte latch holding the most recent scancode, zero when empty.
pub struct ScancodeLatch {
    last: u8,
}

impl ScancodeLatch {
    /// The byte currently held (zero when nothing is pending).
    pub closed spec fn held(&self) -> u8 {
        self.last
    }

    /// An empty latch.
    pub fn new() -> (l: Self)
        ensures
            l.held() == 0,
    {
        ScancodeLatch { last: 0 }
    }

    /// Records a scancode read by the interrupt handler, replacing any
    /// scancode not yet taken.
    pub fn store(&mut self, scancode: u8)
        ensures
            final(self).held() == scancode,
    {
        self.last = scancode;
    }

    /// Takes the pending scancode, leaving the latch empty.
    pub fn take_scancode(&mut self) -> (r: Option<u8>)
        ensures
            final(self).held() == 0,
            r == take_result(old(self).held()),
    {
        let scancode = self.last;
        self.last = 0;
        if scancode == 0 {
            None
        } else {
            Some(scancode)
        }
    }
}

/// A stored non-zero scancode is taken exactly once: taking from a latch that
/// holds it returns it and leaves the latch empty, and taking from the empty
/// latch returns nothing.
pub proof fn lemma_scancode_taken_once(scancode: u8)
    requires
        scancode != 0,
    ensures
        take_result(scancode) == Some(scancode),
        take_result(0) is None,
{
}

} // verus!
