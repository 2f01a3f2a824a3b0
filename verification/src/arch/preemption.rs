//! Interrupt-return frames for preemptive kernel tasks.
use vstd::prelude::*;

use crate::arch::context::align16_down;

verus! {

/// General-purpose registers saved by the timer entry.
pub const SAVED_GPRS: usize = 15;

/// Words of the 64-bit interrupt-return frame: `RIP`, `CS`, `RFLAGS`, `RSP`, `SS`.
pub const CPU_FRAME_WORDS: usize = 5;

/// Words of a complete saved interrupt context.
pub const FRAME_WORDS: usize = 20;

/// Bytes of a complete saved interrupt context.
pub const FRAME_SIZE: usize = 160;

/// `RFLAGS` of a fresh task: the reserved bit and the interrupt flag.
pub const INITIAL_CPU_FLAGS: u64 = 0x202;

/// Register state saved on the stack by the timer entry, followed by the
/// complete interrupt-return frame consumed by `iretq`. `to_words` gives the
/// stack layout.
#[derive(Debug, Clone, Copy, PartialEq, Eq, Structural)]
pub struct InterruptContext {
    pub r15: u64,
    pub r14: u64,
    pub r13: u64,
    pub r12: u64,
    pub r11: u64,
    pub r10: u64,
    pub r9: u64,
    pub r8: u64,
    pub rbp: u64,
    pub rdi: u64,
    pub rsi: u64,
    pub rdx: u64,
    pub rcx: u64,
    pub rbx: u64,
    pub rax: u64,
    pub instruction_pointer: u64,
    pub code_segment: u64,
    pub cpu_flags: u64,
    pub stack_pointer: u64,
    pub stack_segment: u64,
}

impl InterruptContext {
    /// The saved words as they lie on the stack, lowest address first.
    pub fn to_words(&self) -> (w: [u64; FRAME_WORDS])
        ensures
            w@ == self.stack_words(),
            w@[0] == self.r15,
            w@[1] == self.r14,
            w@[2] == self.r13,
            w@[3] == self.r12,
            w@[4] == self.r11,
            w@[5] == self.r10,
            w@[6] == self.r9,
            w@[7] == self.r8,
            w@[8] == self.rbp,
            w@[9] == self.rdi,
            w@[10] == self.rsi,
            w@[11] == self.rdx,
            w@[12] == self.rcx,
            w@[13] == self.rbx,
            w@[14] == self.rax,
            w@[15] == self.instruction_pointer,
            w@[16] == self.code_segment,
            w@[17] == self.cpu_flags,
            w@[18] == self.stack_pointer,
            w@[19] == self.stack_segment,
    {
        let w = [
            self.r15,
            self.r14,
            self.r13,
            self.r12,
            self.r11,
            self.r10,
            self.r9,
            self.r8,
            self.rbp,
            self.rdi,
            self.rsi,
            self.rdx,
            self.rcx,
            self.rbx,
            self.rax,
            self.instruction_pointer,
            self.code_segment,
            self.cpu_flags,
            self.stack_pointer,
            self.stack_segment,
        ];
        assert(w@ =~= self.stack_words());
        w
    }

    /// The context saved in `words`, lowest address first.
    pub fn from_words(words: [u64; FRAME_WORDS]) -> (c: Self)
        ensures
            c.stack_words() == words@,
            c.r15 == words@[0],
            c.r14 == words@[1],
            c.r13 == words@[2],
            c.r12 == words@[3],
            c.r11 == words@[4],
            c.r10 == words@[5],
            c.r9 == words@[6],
            c.r8 == words@[7],
            c.rbp == words@[8],
            c.rdi == words@[9],
            c.rsi == words@[10],
            c.rdx == words@[11],
            c.rcx == words@[12],
            c.rbx == words@[13],
            c.rax == words@[14],
            c.instruction_pointer == words@[15],
            c.code_segment == words@[16],
            c.cpu_flags == words@[17],
            c.stack_pointer == words@[18],
            c.stack_segment == words@[19],
    {
        InterruptContext {
            r15: words[0],
            r14: words[1],
            r13: words[2],
            r12: words[3],
            r11: words[4],
            r10: words[5],
            r9: words[6],
            r8: words[7],
            rbp: words[8],
            rdi: words[9],
            rsi: words[10],
            rdx: words[11],
            rcx: words[12],
            rbx: words[13],
            rax: words[14],
            instruction_pointer: words[15],
            code_segment: words[16],
            cpu_flags: words[17],
            stack_pointer: words[18],
            stack_segment: words[19],
        }
    }

    /// The saved words as they lie on the stack, lowest address first.
    pub open spec fn stack_words(&self) -> Seq<u64> {
        seq![
            self.r15,
            self.r14,
            self.r13,
            self.r12,
            self.r11,
            self.r10,
            self.r9,
            self.r8,
            self.rbp,
            self.rdi,
            self.rsi,
            self.rdx,
            self.rcx,
            self.rbx,
            self.rax,
            self.instruction_pointer,
            self.code_segment,
            self.cpu_flags,
            self.stack_pointer,
            self.stack_segment,
        ]
    }
}

/// A frame written as words reads back as the same context: contexts with the
/// same stack words are equal.
pub proof fn lemma_stack_words_round_trip(a: InterruptContext, b: InterruptContext)
    requires
        a.stack_words() == b.stack_words(),
    ensures
        a == b,
{
    let wa = a.stack_words();
    let wb = b.stack_words();
    assert(wa[0] == wb[0] && wa[1] == wb[1] && wa[2] == wb[2] && wa[3] == wb[3]);
    assert(wa[4] == wb[4] && wa[5] == wb[5] && wa[6] == wb[6] && wa[7] == wb[7]);
    assert(wa[8] == wb[8] && wa[9] == wb[9] && wa[10] == wb[10] && wa[11] == wb[11]);
    assert(wa[12] == wb[12] && wa[13] == wb[13] && wa[14] == wb[14] && wa[15] == wb[15]);
    assert(wa[16] == wb[16] && wa[17] == wb[17] && wa[18] == wb[18] && wa[19] == wb[19]);
}

/// The stack words follow the order in which the timer entry saves the
/// registers (it pushes `rax` first and `r15` last) above the CPU's
/// interrupt-return frame: `r15` at the lowest address, then `r14` ... `r8`,
/// `rbp`, `rdi`, `rsi`, `rdx`, `rcx`, `rbx`, `rax`, and then `RIP`, `CS`,
/// `RFLAGS`, `RSP`, `SS`.
pub proof fn lemma_stack_word_order(c: InterruptContext)
    ensures
        c.stack_words().len() == FRAME_WORDS,
        c.stack_words()[0] == c.r15,
        c.stack_words()[1] == c.r14,
        c.stack_words()[2] == c.r13,
        c.stack_words()[3] == c.r12,
        c.stack_words()[4] == c.r11,
        c.stack_words()[5] == c.r10,
        c.stack_words()[6] == c.r9,
        c.stack_words()[7] == c.r8,
        c.stack_words()[8] == c.rbp,
        c.stack_words()[9] == c.rdi,
        c.stack_words()[10] == c.rsi,
        c.stack_words()[11] == c.rdx,
        c.stack_words()[12] == c.rcx,
        c.stack_words()[13] == c.rbx,
        c.stack_words()[14] == c.rax,
        c.stack_words()[15] == c.instruction_pointer,
        c.stack_words()[16] == c.code_segment,
        c.stack_words()[17] == c.cpu_flags,
        c.stack_words()[18] == c.stack_pointer,
        c.stack_words()[19] == c.stack_segment,
{
}

/// Saved preemptive context: the address of a stack-resident `InterruptContext`.
#[derive(Debug, Clone, Copy, PartialEq, Eq, Structural)]
pub struct PreemptionContext {
    stack_pointer: u64,
}

impl PreemptionContext {
    pub closed spec fn spec_stack_pointer(self) -> u64 {
        self.stack_pointer
    }

    /// A context whose saved frame starts at `stack_pointer`.
    pub fn new(stack_pointer: u64) -> (c: Self)
        ensures
            c.spec_stack_pointer() == stack_pointer,
    {
        PreemptionContext { stack_pointer }
    }

    /// Address of the saved frame.
    #[verifier::when_used_as_spec(spec_stack_pointer)]
    pub fn stack_pointer(self) -> (r: u64)
        ensures
            r == self.spec_stack_pointer(),
    {
        self.stack_pointer
    }
}

/// A fresh preemptive kernel task: its context, the interrupt frame to store
/// at the context's stack pointer, and the stack pointer the task resumes
/// with (where a zero word is stored just above the frame).
#[derive(Debug, Clone, Copy, PartialEq, Eq)]
pub struct KernelTaskFrame {
    pub context: PreemptionContext,
    pub frame: InterruptContext,
    pub resumed_stack_pointer: u64,
}

/// Lays out a Ring 0 interrupt-return frame for a task that has not run yet,
/// on the stack `[stack_bottom, stack_bottom + stack_len)`.
///
/// One word is left above the frame so that the resumed entry observes the
/// SysV function-entry alignment (`RSP % 16 == 8`). The task starts at
/// `entry` with `argument` in `rdi`, interrupts enabled, and the kernel code
/// and data selectors.
pub fn prepare_kernel_task(
    stack_bottom: usize,
    stack_len: usize,
    entry: u64,
    argument: u64,
    code_selector: u16,
    data_selector: u16,
) -> (t: KernelTaskFrame)
    requires
        stack_bottom + stack_len <= usize::MAX,
        align16_down(stack_bottom + stack_len) >= stack_bottom + 8 + FRAME_SIZE,
    ensures
        t.resumed_stack_pointer == align16_down(stack_bottom + stack_len) - 8,
        t.resumed_stack_pointer % 16 == 8,
        t.context.stack_pointer() == t.resumed_stack_pointer - FRAME_SIZE,
        t.context.stack_pointer() >= stack_bottom,
        t.frame == (InterruptContext {
            r15: 0,
            r14: 0,
            r13: 0,
            r12: 0,
            r11: 0,
            r10: 0,
            r9: 0,
            r8: 0,
            rbp: 0,
            rdi: argument,
            rsi: 0,
            rdx: 0,
            rcx: 0,
            rbx: 0,
            rax: 0,
            instruction_pointer: entry,
            code_segment: code_selector as u64,
            cpu_flags: INITIAL_CPU_FLAGS,
            stack_pointer: t.resumed_stack_pointer,
            stack_segment: data_selector as u64,
        }),
{
    let end = stack_bottom + stack_len;
    let aligned_end = end & !0xfusize;
    assert(aligned_end == (end / 16) * 16) by (bit_vector)
        requires
            aligned_end == end & !0xfusize,
    ;
    let resumed_rsp = aligned_end - 8;
    let frame_start = resumed_rsp - FRAME_SIZE;
    let frame = InterruptContext {
        r15: 0,
        r14: 0,
        r13: 0,
        r12: 0,
        r11: 0,
        r10: 0,
        r9: 0,
        r8: 0,
        rbp: 0,
        rdi: argument,
        rsi: 0,
        rdx: 0,
        rcx: 0,
        rbx: 0,
        rax: 0,
        instruction_pointer: entry,
        code_segment: code_selector as u64,
        cpu_flags: INITIAL_CPU_FLAGS,
        stack_pointer: resumed_rsp as u64,
        stack_segment: data_selector as u64,
    };
    KernelTaskFrame {
        context: PreemptionContext::new(frame_start as u64),
        frame,
        resumed_stack_pointer: resumed_rsp as u64,
    }
}

} // verus!
