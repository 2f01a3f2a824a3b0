//! The global descriptor table: kernel and user code/data segments and the TSS.
use vstd::prelude::*;

use x86_64::structures::gdt::{Descriptor, GlobalDescriptorTable};
use x86_64::structures::tss::TaskStateSegment;

verus! {

#[verifier::external_type_specification]
#[verifier::external_body]
pub struct ExGlobalDescriptorTable<const MAX: usize>(GlobalDescriptorTable<MAX>);

#[verifier::external_type_specification]
#[verifier::external_body]
pub struct ExTaskStateSegment(TaskStateSegment);

/// Raw 64-bit entries held by a descriptor table, the null entry first.
pub uninterp spec fn gdt_entries(table: GlobalDescriptorTable) -> Seq<u64>;

/// Capacity of the default descriptor table, in entries.
pub const GDT_CAPACITY: usize = 8;

/// A segment descriptor as raw entries: a code or data segment takes one
/// entry, a system segment (such as a TSS) two.
#[derive(Debug, Clone, Copy, PartialEq, Eq, Structural)]
pub enum SegmentDescriptor {
    User(u64),
    System(u64, u64),
}

/// Raw 64-bit kernel code segment (flat, long mode, DPL 0).
pub const KERNEL_CODE64: u64 = 0x00af_9b00_0000_ffff;

/// Raw kernel data segment (flat, DPL 0).
pub const KERNEL_DATA: u64 = 0x00cf_9300_0000_ffff;

/// Raw 64-bit user code segment (flat, long mode, DPL 3).
pub const USER_CODE64: u64 = 0x00af_fb00_0000_ffff;

/// Raw user data segment (flat, DPL 3).
pub const USER_DATA: u64 = 0x00cf_f300_0000_ffff;

/// Descriptor privilege level encoded in bits 45 and 46 of a descriptor's
/// low entry.
pub open spec fn dpl_of(low: u64) -> int {
    (low as int / 0x2000_0000_0000) % 4
}

/// The selector of the entry at `index` with requested privilege level `rpl`.
pub open spec fn selector(index: int, rpl: int) -> int {
    index * 8 + rpl
}

/// `GlobalDescriptorTable::new`: the new table holds only the null entry.
#[verifier::external_body]
fn gdt_new() -> (table: GlobalDescriptorTable)
    ensures
        gdt_entries(table) == seq![0u64],
{
    GlobalDescriptorTable::new()
}

/// `GlobalDescriptorTable::append`: a code or data segment is pushed as one
/// entry and a system segment as two; the selector returned names the first
/// of them with the descriptor's privilege level as requested privilege
/// level. The table holds eight entries, and appending past them panics, which
/// the precondition excludes.
#[verifier::external_body]
fn gdt_append(table: &mut GlobalDescriptorTable, descriptor: SegmentDescriptor) -> (sel: u16)
    requires
        match descriptor {
            SegmentDescriptor::User(_) => gdt_entries(*old(table)).len() < GDT_CAPACITY,
            SegmentDescriptor::System(_, _) => gdt_entries(*old(table)).len() + 2
                <= GDT_CAPACITY,
        },
    ensures
        match descriptor {
            SegmentDescriptor::User(value) => {
                &&& gdt_entries(*final(table)) == gdt_entries(*old(table)).push(value)
                &&& sel == selector(gdt_entries(*old(table)).len() as int, dpl_of(value))
            },
            SegmentDescriptor::System(low, high) => {
                &&& gdt_entries(*final(table)) == gdt_entries(*old(table)).push(low).push(high)
                &&& sel == selector(gdt_entries(*old(table)).len() as int, dpl_of(low))
            },
        },
{
    let entry = match descriptor {
        SegmentDescriptor::User(value) => Descriptor::UserSegment(value),
        SegmentDescriptor::System(low, high) => Descriptor::SystemSegment(low, high),
    };
    table.append(entry).0
}

/// `Descriptor::kernel_code_segment`: the flat 64-bit kernel code segment.
#[verifier::external_body]
fn kernel_code_segment() -> (d: SegmentDescriptor)
    ensures
        d == SegmentDescriptor::User(KERNEL_CODE64),
{
    match Descriptor::kernel_code_segment() {
        Descriptor::UserSegment(value) => SegmentDescriptor::User(value),
        Descriptor::SystemSegment(low, high) => SegmentDescriptor::System(low, high),
    }
}

/// `Descriptor::kernel_data_segment`: the flat kernel data segment.
#[verifier::external_body]
fn kernel_data_segment() -> (d: SegmentDescriptor)
    ensures
        d == SegmentDescriptor::User(KERNEL_DATA),
{
    match Descriptor::kernel_data_segment() {
        Descriptor::UserSegment(value) => SegmentDescriptor::User(value),
        Descriptor::SystemSegment(low, high) => SegmentDescriptor::System(low, high),
    }
}

/// `Descriptor::user_data_segment`: the flat ring 3 data segment.
#[verifier::external_body]
fn user_data_segment() -> (d: SegmentDescriptor)
    ensures
        d == SegmentDescriptor::User(USER_DATA),
{
    match Descriptor::user_data_segment() {
        Descriptor::UserSegment(value) => SegmentDescriptor::User(value),
        Descriptor::SystemSegment(low, high) => SegmentDescriptor::System(low, high),
    }
}

/// `Descriptor::user_code_segment`: the flat 64-bit ring 3 code segment.
#[verifier::external_body]
fn user_code_segment() -> (d: SegmentDescriptor)
    ensures
        d == SegmentDescriptor::User(USER_CODE64),
{
    match Descriptor::user_code_segment() {
        Descriptor::UserSegment(value) => SegmentDescriptor::User(value),
        Descriptor::SystemSegment(low, high) => SegmentDescriptor::System(low, high),
    }
}

/// The low entry of a TSS descriptor as `Descriptor::tss_segment` builds it:
/// a limit of at least `0x67` (the TSS size less one), type `0b1001`
/// (available 64-bit TSS), a system segment with privilege level 0, present,
/// and no limit-high or flag bits. Only the base, taken from the TSS's
/// address, is left open.
pub open spec fn tss_low_entry(low: u64) -> bool {
    &&& low as int % 0x1_0000 >= 0x67
    &&& (low as int / 0x100_0000_0000) % 16 == 9
    &&& (low as int / 0x1000_0000_0000) % 8 == 0
    &&& (low as int / 0x8000_0000_0000) % 2 == 1
    &&& (low as int / 0x1_0000_0000_0000) % 0x100 == 0
}

/// `Descriptor::tss_segment`: a TSS system descriptor whose low entry satisfies
/// `tss_low_entry` and whose high entry holds only the upper half of the TSS
/// address. The base fields come from the TSS's address, and the limit is the
/// larger of the TSS size and its I/O map offset, less one; this contract
/// leaves the address itself and the exact limit unstated.
#[verifier::external_body]
fn tss_segment(tss: &'static TaskStateSegment) -> (d: SegmentDescriptor)
    ensures
        match d {
            SegmentDescriptor::System(low, high) => tss_low_entry(low) && high < 0x1_0000_0000,
            SegmentDescriptor::User(_) => false,
        },
{
    match Descriptor::tss_segment(tss) {
        Descriptor::UserSegment(value) => SegmentDescriptor::User(value),
        Descriptor::SystemSegment(low, high) => SegmentDescriptor::System(low, high),
    }
}

/// Selectors of the kernel's descriptor table.
#[derive(Debug, Clone, Copy, PartialEq, Eq, Structural)]
pub struct Selectors {
    pub code: u16,
    pub data: u16,
    pub user_data: u16,
    pub user_code: u16,
    pub tss: u16,
}

/// The kernel's descriptor table and the selectors of its entries.
pub struct GdtLayout {
    pub table: GlobalDescriptorTable,
    pub selectors: Selectors,
}

impl GdtLayout {
    /// The user code and data selectors, for entering Ring 3.
    pub fn user_selectors(&self) -> (s: (u16, u16))
        ensures
            s == (self.selectors.user_code, self.selectors.user_data),
    {
        (self.selectors.user_code, self.selectors.user_data)
    }

    /// The kernel code and data selectors.
    pub fn kernel_selectors(&self) -> (s: (u16, u16))
        ensures
            s == (self.selectors.code, self.selectors.data),
    {
        (self.selectors.code, self.selectors.data)
    }
}

/// Builds the kernel's descriptor table: null, kernel code, kernel data, user
/// data, user code, then the two entries of the TSS descriptor.
///
/// Kernel selectors request privilege level 0 and user selectors level 3.
pub fn build_gdt(tss: &'static TaskStateSegment) -> (layout: GdtLayout)
    ensures
        layout.selectors == (Selectors {
            code: 0x08,
            data: 0x10,
            user_data: 0x1b,
            user_code: 0x23,
            tss: 0x28,
        }),
        gdt_entries(layout.table).len() == 7,
        tss_low_entry(gdt_entries(layout.table)[5]),
        dpl_of(gdt_entries(layout.table)[5]) == 0,
        gdt_entries(layout.table)[6] < 0x1_0000_0000,
        gdt_entries(layout.table).subrange(0, 5) == seq![
            0u64,
            KERNEL_CODE64,
            KERNEL_DATA,
            USER_DATA,
            USER_CODE64,
        ],
{
    let mut table = gdt_new();
    let code = gdt_append(&mut table, kernel_code_segment());
    let data = gdt_append(&mut table, kernel_data_segment());
    let user_data = gdt_append(&mut table, user_data_segment());
    let user_code = gdt_append(&mut table, user_code_segment());
    let tss_selector = gdt_append(&mut table, tss_segment(tss));
    assert(gdt_entries(table).subrange(0, 5) =~= seq![
        0u64,
        KERNEL_CODE64,
        KERNEL_DATA,
        USER_DATA,
        USER_CODE64,
    ]);
    GdtLayout {
        table,
        selectors: Selectors { code, data, user_data, user_code, tss: tss_selector },
    }
}

} // verus!
