use nastalli::arch::context::{prepare, Context};
use nastalli::arch::gdt::build_gdt;
use x86_64::structures::gdt::SegmentSelector;
use x86_64::structures::tss::TaskStateSegment;
use x86_64::PrivilegeLevel;
use nastalli::arch::interrupts::{
    end_of_interrupt_writes, hex_digits_u64, pit_divisor, pit_programming_writes, InterruptIndex,
    TickCounter,
    TIMER_FREQUENCY_HZ,
};
use nastalli::arch::keyboard::ScancodeLatch;
use nastalli::arch::paging::{parent_table_access, user_page_access, PageAccess, UserPageKind};
use nastalli::arch::preemption::{prepare_kernel_task, InterruptContext, PreemptionContext};
use nastalli::arch::serial::{init_writes, transmit_ready};

/// A 4 KiB stack inside `buffer`, starting at a 16-byte boundary.
fn aligned_stack(buffer: &[u8; 4096 + 16]) -> usize {
    let base = buffer.as_ptr() as usize;
    (base + 15) & !15
}

#[test]
fn pit_divisor_for_100_hz_is_11931() {
    assert_eq!(pit_divisor(100), 11_931);
}

#[test]
fn pit_divisor_saturates_for_low_frequencies() {
    assert_eq!(pit_divisor(1), u16::MAX);
    assert_eq!(pit_divisor(18), u16::MAX);
    assert_eq!(pit_divisor(19), 62_799);
    assert_eq!(pit_divisor(1_193_182), 1);
    assert_eq!(pit_divisor(2_000_000), 0);
}

#[test]
fn pit_programming_sends_mode_then_divisor_low_then_high() {
    let writes = pit_programming_writes(TIMER_FREQUENCY_HZ);
    // 11931 == 0x2e9b
    assert_eq!(writes, [(0x43, 0x36), (0x40, 0x9b), (0x40, 0x2e)]);
}

#[test]
fn interrupt_vectors_follow_the_remapped_pic() {
    assert_eq!(InterruptIndex::Timer.as_u8(), 32);
    assert_eq!(InterruptIndex::Keyboard.as_u8(), 33);
    assert_eq!(InterruptIndex::Keyboard.as_usize(), 33);
}

#[test]
fn end_of_interrupt_acknowledges_secondary_pic_only_for_its_vectors() {
    assert_eq!(end_of_interrupt_writes(32), vec![(0x20, 0x20)]);
    assert_eq!(end_of_interrupt_writes(39), vec![(0x20, 0x20)]);
    assert_eq!(end_of_interrupt_writes(40), vec![(0xa0, 0x20), (0x20, 0x20)]);
    assert_eq!(end_of_interrupt_writes(47), vec![(0xa0, 0x20), (0x20, 0x20)]);
}

#[test]
fn hex_digits_are_lower_case_and_most_significant_first() {
    assert_eq!(&hex_digits_u64(0x10), b"0000000000000010");
    assert_eq!(&hex_digits_u64(0xdead_beef_0123_4567), b"deadbeef01234567");
    assert_eq!(&hex_digits_u64(u64::MAX), b"ffffffffffffffff");
    assert_eq!(&hex_digits_u64(0), b"0000000000000000");
}

#[test]
fn scancode_latch_hands_out_a_scancode_once() {
    let mut latch = ScancodeLatch::new();
    assert_eq!(latch.take_scancode(), None);
    latch.store(0x1e);
    latch.store(0x30);
    assert_eq!(latch.take_scancode(), Some(0x30));
    assert_eq!(latch.take_scancode(), None);
}

#[test]
fn serial_initialisation_and_readiness() {
    let writes = init_writes();
    assert_eq!(writes[0], (0x3f9, 0x00));
    assert_eq!(writes[1], (0x3fb, 0x80));
    assert_eq!(writes[6], (0x3fc, 0x0b));
    assert!(transmit_ready(0x20));
    assert!(transmit_ready(0x60));
    assert!(!transmit_ready(0x1f));
    assert!(!transmit_ready(0x00));
}

#[test]
fn empty_context_has_no_stack_pointer() {
    assert_eq!(Context::empty(), Context { stack_pointer: 0 });
}

#[test]
fn prepared_context_starts_inside_aligned_stack() {
    let buffer = [0u8; 4096 + 16];
    let bottom = aligned_stack(&buffer);
    let prepared = prepare(bottom, 4096, 0x1000, 0, 0x2000);
    let context = prepared.context;
    let start = bottom as u64;
    let end = start + 4096;

    assert!(context.stack_pointer >= start);
    assert!(context.stack_pointer < end);
    assert_eq!(context.stack_pointer % 16, 0);
}

#[test]
fn prepared_context_frame_holds_entry_argument_and_trampoline() {
    let prepared = prepare(0x10003, 0x1000, 0xaaaa, 0xbbbb, 0xcccc);
    // top 0x11003 rounds down to 0x11000; the frame is 64 bytes below it.
    assert_eq!(prepared.context.stack_pointer, 0x10fc0);
    assert_eq!(prepared.words, [0, 0, 0xaaaa, 0xbbbb, 0, 0, 0xcccc, 0]);
}

#[test]
fn prepared_kernel_task_contains_iret_entry_and_argument() {
    let buffer = [0u8; 4096 + 16];
    let bottom = aligned_stack(&buffer);
    let entry = 0xffff_8000_0000_1234u64;
    let argument = 0x1234u64;
    let prepared = prepare_kernel_task(
        bottom,
        4096,
        entry,
        argument,
        0x08,
        0x10,
    );
    let frame = prepared.frame;
    let resumed_rsp = bottom as u64 + 4096 - 8;

    assert_eq!(frame.instruction_pointer, entry);
    assert_eq!(frame.rdi, argument);
    assert_ne!(frame.cpu_flags & (1 << 9), 0);
    assert_eq!(frame.stack_pointer, resumed_rsp);
    assert_ne!(frame.stack_segment, 0);
    assert_eq!(
        prepared.context.stack_pointer() + core::mem::size_of::<InterruptContext>() as u64,
        resumed_rsp
    );
}

#[test]
fn prepared_kernel_task_uses_kernel_selectors() {
    let prepared = prepare_kernel_task(0x20000, 0x1000, 1, 2, 0x08, 0x10);
    assert_eq!(prepared.frame.code_segment, 0x08);
    assert_eq!(prepared.frame.stack_segment, 0x10);
    assert_eq!(prepared.frame.cpu_flags, 0x202);
    assert_eq!(prepared.resumed_stack_pointer, 0x20ff8);
    assert_eq!(prepared.context.stack_pointer(), 0x20ff8 - 160);
    assert_eq!(prepared.frame.rax, 0);
    assert_eq!(prepared.frame.r15, 0);
}

#[test]
fn preemption_context_round_trips_stack_pointer() {
    let context = PreemptionContext::new(0x1234);
    assert_eq!(context.stack_pointer(), 0x1234);
}

#[test]
fn user_selectors_have_ring3_rpl() {
    let tss: &'static TaskStateSegment = Box::leak(Box::new(TaskStateSegment::new()));
    let layout = build_gdt(tss);
    let (code, data) = layout.user_selectors();
    assert_eq!(SegmentSelector(code).rpl(), PrivilegeLevel::Ring3);
    assert_eq!(SegmentSelector(data).rpl(), PrivilegeLevel::Ring3);
}

#[test]
fn kernel_selectors_have_ring0_rpl_and_the_tss_follows_the_user_segments() {
    let tss: &'static TaskStateSegment = Box::leak(Box::new(TaskStateSegment::new()));
    let layout = build_gdt(tss);
    let (code, data) = layout.kernel_selectors();
    assert_eq!(SegmentSelector(code).rpl(), PrivilegeLevel::Ring0);
    assert_eq!(SegmentSelector(data).rpl(), PrivilegeLevel::Ring0);
    assert_eq!((code, data), (0x08, 0x10));
    assert_eq!(layout.selectors.tss, 0x28);
    assert_eq!(SegmentSelector(layout.selectors.tss).index(), 5);
    assert_eq!(layout.table.entries().len(), 7);
    assert_eq!(layout.table.entries()[1].raw(), 0x00af_9b00_0000_ffff);
}

#[test]
fn user_code_is_not_writable_and_user_stack_is_not_executable() {
    let code = user_page_access(UserPageKind::Code);
    let stack = user_page_access(UserPageKind::Stack);
    assert_eq!(
        code,
        PageAccess { present: true, writable: false, user_accessible: true, no_execute: false }
    );
    assert_eq!(
        stack,
        PageAccess { present: true, writable: true, user_accessible: true, no_execute: true }
    );
    let parent = parent_table_access();
    assert!(parent.present && parent.writable && parent.user_accessible && !parent.no_execute);
}

#[test]
fn interrupt_frame_words_follow_the_push_order() {
    let prepared = prepare_kernel_task(0x20000, 0x1000, 0xaa, 0xbb, 0x08, 0x10);
    let words = prepared.frame.to_words();
    assert_eq!(words.len(), 20);
    assert_eq!(words[9], 0xbb);
    assert_eq!(&words[15..], &[0xaa, 0x08, 0x202, 0x20ff8, 0x10]);
    assert_eq!(InterruptContext::from_words(words), prepared.frame);
}

#[test]
fn tss_descriptor_is_a_present_available_tss_with_ring0_privilege() {
    let tss: &'static TaskStateSegment = Box::leak(Box::new(TaskStateSegment::new()));
    let layout = build_gdt(tss);
    let low = layout.table.entries()[5].raw();
    let high = layout.table.entries()[6].raw();
    assert_eq!(low & 0xffff, 0x67);
    assert_eq!((low >> 40) & 0xf, 0b1001);
    assert_eq!((low >> 44) & 0x7, 0);
    assert_eq!((low >> 47) & 1, 1);
    assert_eq!((low >> 48) & 0xff, 0);
    assert_eq!(high >> 32, 0);
}

#[test]
fn tick_counter_counts_ticks() {
    let mut counter = TickCounter::new();
    assert_eq!(counter.ticks(), 0);
    counter.record_tick();
    counter.record_tick();
    assert_eq!(counter.ticks(), 2);
}
