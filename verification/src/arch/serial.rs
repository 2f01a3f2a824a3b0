//! COM1 16550 UART programming.
use vstd::prelude::*;

verus! {

/// Base I/O port of COM1.
pub const COM1: u16 = 0x3f8;

/// Line-status register of COM1.
pub const LINE_STATUS_PORT: u16 = 0x3fd;

/// Transmitter-holding-register-empty bit of the line-status register.
pub const TRANSMIT_EMPTY: u8 = 0x20;

/// Port writes that initialise COM1, in order: disable interrupts, enable the
/// divisor latch, divisor 3 (38400 baud), 8N1 framing, enable and clear the
/// FIFO, and raise DTR/RTS/OUT2.
pub fn init_writes() -> (w: [(u16, u8); 7])
    ensures
        w@ == seq![
            (0x3f9u16, 0x00u8),
            (0x3fbu16, 0x80u8),
            (0x3f8u16, 0x03u8),
            (0x3f9u16, 0x00u8),
            (0x3fbu16, 0x03u8),
            (0x3fau16, 0xc7u8),
            (0x3fcu16, 0x0bu8),
        ],
{
    let w = [
        (COM1 + 1, 0x00u8),
        (COM1 + 3, 0x80u8),
        (COM1, 0x03u8),
        (COM1 + 1, 0x00u8),
        (COM1 + 3, 0x03u8),
        (COM1 + 2, 0xc7u8),
        (COM1 + 4, 0x0bu8),
    ];
    assert(w@ =~= seq![
        (0x3f9u16, 0x00u8),
        (0x3fbu16, 0x80u8),
        (0x3f8u16, 0x03u8),
        (0x3f9u16, 0x00u8),
        (0x3fbu16, 0x03u8),
        (0x3fau16, 0xc7u8),
        (0x3fcu16, 0x0bu8),
    ]);
    w
}

/// The UART can accept another byte: the transmitter-holding-register-empty
/// bit of the line status is set.
pub fn transmit_ready(line_status: u8) -> (r: bool)
    ensures
        r == ((line_status / 32) % 2 == 1),
{
    assert((line_status & 0x20 != 0) == ((line_status / 32) % 2 == 1)) by (bit_vector);
    line_status & TRANSMIT_EMPTY != 0
}

} // verus!
