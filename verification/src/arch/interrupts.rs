//! Interrupt-controller and timer arithmetic: PIC vector layout, end-of-interrupt
//! acknowledgement, PIT programming, and the hexadecimal rendering used by the
//! fault trace.
use vstd::prelude::*;

verus! {

/// First vector of the primary PIC after remapping.
pub const PIC_1_OFFSET: u8 = 32;

/// First vector of the secondary PIC after remapping.
pub const PIC_2_OFFSET: u8 = 40;

/// Input clock of the programmable interval timer.
pub const PIT_FREQUENCY_HZ: u32 = 1_193_182;

/// Frequency at which the kernel programs the timer.
pub const TIMER_FREQUENCY_HZ: u32 = 100;

/// Command port of the PIT.
pub const PIT_COMMAND_PORT: u16 = 0x43;

/// Channel 0 data port of the PIT.
pub const PIT_CHANNEL0_PORT: u16 = 0x40;

/// Channel 0, low byte then high byte, rate generator, binary.
pub const PIT_RATE_GENERATOR: u8 = 0x36;

/// Command port of the primary PIC.
pub const PIC_1_COMMAND_PORT: u16 = 0x20;

/// Command port of the secondary PIC.
pub const PIC_2_COMMAND_PORT: u16 = 0xa0;

/// End-of-interrupt command.
pub const END_OF_INTERRUPT: u8 = 0x20;

/// Hardware interrupts the kernel handles through the PIC.
#[derive(Debug, Clone, Copy, PartialEq, Eq, Structural)]
pub enum InterruptIndex {
    Timer,
    Keyboard,
}

impl InterruptIndex {
    pub open spec fn vector(self) -> u8 {
        match self {
            InterruptIndex::Timer => PIC_1_OFFSET,
            InterruptIndex::Keyboard => (PIC_1_OFFSET + 1) as u8,
        }
    }

    /// The interrupt vector: IRQ0 and IRQ1 of the remapped primary PIC.
    pub fn as_u8(self) -> (v: u8)
        ensures
            v == self.vector(),
    {
        match self {
            InterruptIndex::Timer => PIC_1_OFFSET,
            InterruptIndex::Keyboard => PIC_1_OFFSET + 1,
        }
    }

    /// The interrupt vector as an index into the descriptor table.
    pub fn as_usize(self) -> (v: usize)
        ensures
            v == self.vector(),
    {
        self.as_u8() as usize
    }
}

/// Divisor that makes the PIT tick at `frequency_hz`, saturated to the
/// largest 16-bit divisor.
pub open spec fn pit_divisor_spec(frequency_hz: u32) -> u16 {
    let divisor = PIT_FREQUENCY_HZ / frequency_hz;
    if divisor > u16::MAX {
        u16::MAX
    } else {
        divisor as u16
    }
}

/// Divisor that makes the PIT tick at `frequency_hz` (integer division of the
/// PIT input clock, saturated to `u16::MAX`).
pub fn pit_divisor(frequency_hz: u32) -> (d: u16)
    requires
        frequency_hz > 0,
    ensures
        d == pit_divisor_spec(frequency_hz),
{
    let divisor = PIT_FREQUENCY_HZ / frequency_hz;
    if divisor > u16::MAX as u32 {
        u16::MAX
    } else {
        divisor as u16
    }
}

/// Port writes that program PIT channel 0 to tick at `frequency_hz`: the
/// mode command, then the divisor's low byte, then its high byte.
pub fn pit_programming_writes(frequency_hz: u32) -> (w: [(u16, u8); 3])
    requires
        frequency_hz > 0,
    ensures
        w@ == seq![
            (PIT_COMMAND_PORT, PIT_RATE_GENERATOR),
            (PIT_CHANNEL0_PORT, (pit_divisor_spec(frequency_hz) % 256) as u8),
            (PIT_CHANNEL0_PORT, (pit_divisor_spec(frequency_hz) / 256) as u8),
        ],
{
    let divisor = pit_divisor(frequency_hz);
    let low = (divisor & 0xff) as u8;
    let high = (divisor >> 8) as u8;
    assert(divisor & 0xff == divisor % 256) by (bit_vector);
    assert(divisor >> 8 == divisor / 256) by (bit_vector);
    let w = [
        (PIT_COMMAND_PORT, PIT_RATE_GENERATOR),
        (PIT_CHANNEL0_PORT, low),
        (PIT_CHANNEL0_PORT, high),
    ];
    assert(w@ =~= seq![
        (PIT_COMMAND_PORT, PIT_RATE_GENERATOR),
        (PIT_CHANNEL0_PORT, (pit_divisor_spec(frequency_hz) % 256) as u8),
        (PIT_CHANNEL0_PORT, (pit_divisor_spec(frequency_hz) / 256) as u8),
    ]);
    w
}

/// Port writes that acknowledge interrupt `interrupt_id`: vectors served by
/// the secondary PIC are acknowledged there first, then every interrupt is
/// acknowledged at the primary PIC.
pub fn end_of_interrupt_writes(interrupt_id: u8) -> (w: Vec<(u16, u8)>)
    ensures
        w@ == if interrupt_id >= PIC_2_OFFSET {
            seq![(PIC_2_COMMAND_PORT, END_OF_INTERRUPT), (PIC_1_COMMAND_PORT, END_OF_INTERRUPT)]
        } else {
            seq![(PIC_1_COMMAND_PORT, END_OF_INTERRUPT)]
        },
{
    let mut w: Vec<(u16, u8)> = Vec::new();
    if interrupt_id >= PIC_2_OFFSET {
        w.push((PIC_2_COMMAND_PORT, END_OF_INTERRUPT));
    }
    w.push((PIC_1_COMMAND_PORT, END_OF_INTERRUPT));
    proof {
        if interrupt_id >= PIC_2_OFFSET {
            assert(w@ =~= seq![
                (PIC_2_COMMAND_PORT, END_OF_INTERRUPT),
                (PIC_1_COMMAND_PORT, END_OF_INTERRUPT),
            ]);
        } else {
            assert(w@ =~= seq![(PIC_1_COMMAND_PORT, END_OF_INTERRUPT)]);
        }
    }
    w
}

/// ASCII lower-case hexadecimal digit for `nibble` (below 16).
pub open spec fn hex_char(nibble: u64) -> u8 {
    if nibble < 10 {
        (48 + nibble) as u8
    } else {
        (97 + nibble - 10) as u8
    }
}

/// The `i`-th of the sixteen hexadecimal digits of `value`, most significant
/// first.
pub open spec fn hex_digit_at(value: u64, i: int) -> u8 {
    hex_char((value >> ((15 - i) * 4) as u64) & 0x0f)
}

/// The sixteen lower-case hexadecimal digits of `value`, most significant
/// first, as they appear in fault traces.
pub fn hex_digits_u64(value: u64) -> (digits: [u8; 16])
    ensures
        forall|i: int| 0 <= i < 16 ==> #[trigger] digits@[i] == hex_digit_at(value, i),
{
    let mut digits: [u8; 16] = [0; 16];
    let mut i: usize = 0;
    while i < 16
        invariant
            i <= 16,
            forall|j: int| 0 <= j < i ==> #[trigger] digits@[j] == hex_digit_at(value, j),
        decreases 16 - i,
    {
        let shift: u64 = ((15 - i) * 4) as u64;
        let nibble: u64 = (value >> shift) & 0x0f;
        assert(nibble < 16) by (bit_vector)
            requires
                nibble == (value >> shift) & 0x0f,
        ;
        let digit: u8 = if nibble < 10 {
            48u8 + nibble as u8
        } else {
            97u8 + nibble as u8 - 10
        };
        digits[i] = digit;
        i = i + 1;
    }
    digits
}

/// Count of timer interrupts since the timer was programmed. The count wraps
/// around after `u64::MAX` ticks.
pub struct TickCounter {
    ticks: u64,
}

impl TickCounter {
    /// Ticks counted so far.
    pub closed spec fn count(&self) -> u64 {
        self.ticks
    }

    /// A counter that has seen no tick.
    pub fn new() -> (c: Self)
        ensures
            c.count() == 0,
    {
        TickCounter { ticks: 0 }
    }

    /// Accounts one timer interrupt (IRQ0).
    pub fn record_tick(&mut self)
        ensures
            final(self).count() == (old(self).count() as int + 1) % 0x1_0000_0000_0000_0000,
    {
        self.ticks = self.ticks.wrapping_add(1);
    }

    /// Ticks counted so far.
    pub fn ticks(&self) -> (t: u64)
        ensures
            t == self.count(),
    {
        self.ticks
    }
}

} // verus!
