//! Scan code set 1 decoding for the keys the kernel currently understands.
use vstd::prelude::*;

use crate::arch::keyboard::{take_result, ScancodeLatch};

verus! {

/// Keys the kernel recognises.
#[derive(Debug, Clone, Copy, PartialEq, Eq, Structural)]
pub enum Key {
    A,
    B,
    C,
    D,
    E,
    Enter,
    Space,
    Backspace,
}

/// The key a set-1 scancode stands for: release codes (high bit set) and
/// unmapped codes stand for none.
pub open spec fn key_of(scancode: u8) -> Option<Key> {
    if scancode >= 0x80 {
        None
    } else if scancode == 0x1e {
        Some(Key::A)
    } else if scancode == 0x30 {
        Some(Key::B)
    } else if scancode == 0x2e {
        Some(Key::C)
    } else if scancode == 0x20 {
        Some(Key::D)
    } else if scancode == 0x12 {
        Some(Key::E)
    } else if scancode == 0x1c {
        Some(Key::Enter)
    } else if scancode == 0x39 {
        Some(Key::Space)
    } else if scancode == 0x0e {
        Some(Key::Backspace)
    } else {
        None
    }
}

/// Decodes a key press; key releases and unmapped scancodes give `None`.
pub fn decode_scancode(scancode: u8) -> (k: Option<Key>)
    ensures
        k == key_of(scancode),
{
    assert((scancode & 0x80 != 0) == (scancode >= 0x80)) by (bit_vector);
    if scancode & 0x80 != 0 {
        return None;
    }
    match scancode {
        0x1e => Some(Key::A),
        0x30 => Some(Key::B),
        0x2e => Some(Key::C),
        0x20 => Some(Key::D),
        0x12 => Some(Key::E),
        0x1c => Some(Key::Enter),
        0x39 => Some(Key::Space),
        0x0e => Some(Key::Backspace),
        _ => None,
    }
}

/// Takes the pending scancode from the latch and decodes it.
pub fn take_key(latch: &mut ScancodeLatch) -> (k: Option<Key>)
    ensures
        final(latch).held() == 0,
        k == match take_result(old(latch).held()) {
            Some(scancode) => key_of(scancode),
            None => None,
        },
{
    match latch.take_scancode() {
        Some(scancode) => decode_scancode(scancode),
        None => None,
    }
}

/// Only key presses are decoded, and no two scancodes decode to the same key.
pub proof fn lemma_decoding_is_injective_on_presses(a: u8, b: u8)
    ensures
        key_of(a) is Some ==> a < 0x80,
        key_of(a) is Some && key_of(a) == key_of(b) ==> a == b,
{
}

} // verus!
