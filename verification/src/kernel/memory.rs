//! Physical memory: a linear allocator of 4 KiB frames over the boot memory map.
//!
//! Only usable regions produce frames. Region ends are exclusive and unaligned
//! region edges are discarded, never rounded into a neighbouring region.
use vstd::prelude::*;

verus! {

/// Size of a physical frame in bytes.
pub const PAGE_SIZE: u64 = 4096;

/// Kind of a memory region reported by the firmware through the bootloader.
#[derive(Debug, Clone, Copy, PartialEq, Eq, Structural)]
pub enum MemoryRegionKind {
    /// Unused conventional memory that the kernel may use.
    Usable,
    /// Memory holding the bootloader's page tables and boot information.
    Bootloader,
    /// Region of an unknown UEFI memory type.
    UnknownUefi(u32),
    /// Region of an unknown E820 memory type.
    UnknownBios(u32),
}

/// A physical memory region `[start, end)`.
#[derive(Debug, Clone, Copy, PartialEq, Eq, Structural)]
pub struct MemoryRegion {
    pub start: u64,
    pub end: u64,
    pub kind: MemoryRegionKind,
}

/// A 4 KiB physical frame, identified by its start address.
#[derive(Debug, Clone, Copy, PartialEq, Eq, Structural)]
pub struct PhysicalFrame {
    pub start_address: u64,
}

/// `address` rounded up to a frame boundary.
pub open spec fn align_up_spec(address: int) -> int {
    ((address + PAGE_SIZE - 1) / (PAGE_SIZE as int)) * PAGE_SIZE
}

/// `address` rounded down to a frame boundary.
pub open spec fn align_down_spec(address: int) -> int {
    (address / (PAGE_SIZE as int)) * PAGE_SIZE
}

/// Number of whole frames inside `[start, end)`.
pub open spec fn frame_count_spec(start: int, end: int) -> int {
    if align_down_spec(end) <= align_up_spec(start) {
        0
    } else {
        (align_down_spec(end) - align_up_spec(start)) / (PAGE_SIZE as int)
    }
}

/// Aligning the start of this region up does not overflow.
pub open spec fn start_alignable(region: MemoryRegion) -> bool {
    region.start <= u64::MAX - (PAGE_SIZE - 1)
}

/// Every usable region can have its start aligned up without overflow.
pub open spec fn usable_starts_alignable(regions: Seq<MemoryRegion>) -> bool {
    forall|i: int|
        0 <= i < regions.len() && (#[trigger] regions[i]).kind == MemoryRegionKind::Usable
            ==> start_alignable(regions[i])
}

/// Total number of whole frames in the usable regions.
pub open spec fn usable_total(regions: Seq<MemoryRegion>) -> int
    decreases regions.len(),
{
    if regions.len() == 0 {
        0
    } else {
        usable_total(regions.drop_last()) + if regions.last().kind == MemoryRegionKind::Usable {
            frame_count_spec(regions.last().start as int, regions.last().end as int)
        } else {
            0
        }
    }
}

/// The frame starting at `address` lies wholly inside the usable part of
/// `region`.
pub open spec fn frame_in_region(region: MemoryRegion, address: int) -> bool {
    &&& region.kind == MemoryRegionKind::Usable
    &&& address % (PAGE_SIZE as int) == 0
    &&& align_up_spec(region.start as int) <= address
    &&& address < align_down_spec(region.end as int)
}

/// Result of one allocation from the cursor `(index, next)`: the frame handed
/// out, if any, and the cursor afterwards.
pub open spec fn next_frame(regions: Seq<MemoryRegion>, index: int, next: u64) -> (Option<u64>, int, u64)
    decreases regions.len() - index,
{
    if index < 0 || index >= regions.len() {
        (None, index, next)
    } else if regions[index].kind != MemoryRegionKind::Usable {
        next_frame(regions, index + 1, 0)
    } else {
        let first = align_up_spec(regions[index].start as int);
        let last = align_down_spec(regions[index].end as int);
        let address = if next >= first {
            next as int
        } else {
            first
        };
        if address < last {
            (Some(address as u64), index, (address + PAGE_SIZE) as u64)
        } else {
            next_frame(regions, index + 1, 0)
        }
    }
}

/// The frame at `address` can still be handed out from the cursor
/// `(index, next)`: it lies in a usable region at or after `index`, and at or
/// above `next` when that region is the current one.
pub open spec fn available(regions: Seq<MemoryRegion>, index: int, next: u64, address: int) -> bool {
    exists|i: int|
        0 <= index <= i < regions.len() && frame_in_region(#[trigger] regions[i], address) && (i
            > index || address >= next)
}

/// Usable regions do not overlap.
pub open spec fn usable_disjoint(regions: Seq<MemoryRegion>) -> bool {
    forall|i: int, j: int|
        0 <= i < regions.len() && 0 <= j < regions.len() && i != j && (#[trigger] regions[i]).kind
            == MemoryRegionKind::Usable && (#[trigger] regions[j]).kind == MemoryRegionKind::Usable
            ==> regions[i].end <= regions[j].start || regions[j].end <= regions[i].start
}

/// The first `n` results of successive allocations from `(index, next)`,
/// stopping at the first exhausted call.
pub open spec fn allocations(regions: Seq<MemoryRegion>, index: int, next: u64, n: nat) -> Seq<u64>
    decreases n,
{
    if n == 0 {
        Seq::empty()
    } else {
        match next_frame(regions, index, next) {
            (Some(f), i, m) => seq![f].add(allocations(regions, i, m, (n - 1) as nat)),
            (None, _, _) => Seq::empty(),
        }
    }
}

proof fn lemma_align(address: int)
    requires
        0 <= address,
    ensures
        align_up_spec(address) % (PAGE_SIZE as int) == 0,
        align_down_spec(address) % (PAGE_SIZE as int) == 0,
        address <= align_up_spec(address) < address + PAGE_SIZE,
        address - PAGE_SIZE < align_down_spec(address) <= address,
{
    assert(((address + 4095) / 4096) * 4096 % 4096 == 0) by (nonlinear_arith)
        requires address >= 0;
    assert((address / 4096) * 4096 % 4096 == 0) by (nonlinear_arith)
        requires address >= 0;
    assert(address <= ((address + 4095) / 4096) * 4096 < address + 4096) by (nonlinear_arith)
        requires address >= 0;
    assert(address - 4096 < (address / 4096) * 4096 <= address) by (nonlinear_arith)
        requires address >= 0;
}

/// Rounds up to a frame boundary.
fn align_up(address: u64) -> (r: u64)
    requires
        address <= u64::MAX - (PAGE_SIZE - 1),
    ensures
        r == align_up_spec(address as int),
{
    let sum = address + (PAGE_SIZE - 1);
    assert(sum & !4095u64 == (sum / 4096) * 4096) by (bit_vector);
    sum & !(PAGE_SIZE - 1)
}

/// Rounds down to a frame boundary.
fn align_down(address: u64) -> (r: u64)
    ensures
        r == align_down_spec(address as int),
{
    assert(address & !4095u64 == (address / 4096) * 4096) by (bit_vector);
    address & !(PAGE_SIZE - 1)
}

/// Number of whole frames inside `[start, end)`, ignoring unaligned edges.
pub fn usable_frame_count(start: u64, end: u64) -> (n: u64)
    requires
        start <= u64::MAX - (PAGE_SIZE - 1),
    ensures
        n == frame_count_spec(start as int, end as int),
{
    let first_frame = align_up(start);
    let last_address = align_down(end);
    if last_address <= first_frame {
        0
    } else {
        (last_address - first_frame) / PAGE_SIZE
    }
}

/// Linear frame allocator over the boot memory map.
pub struct FrameAllocator<'a> {
    regions: &'a [MemoryRegion],
    region_index: usize,
    next_address: u64,
}

impl<'a> FrameAllocator<'a> {
    /// The memory map the allocator walks.
    pub closed spec fn regions(&self) -> Seq<MemoryRegion> {
        self.regions@
    }

    /// Index of the region the allocator is currently in.
    pub closed spec fn index(&self) -> int {
        self.region_index as int
    }

    /// Lowest address the current region may still hand out.
    pub closed spec fn next(&self) -> u64 {
        self.next_address
    }

    /// The allocator's invariant: the cursor address is frame aligned.
    pub open spec fn wf(&self) -> bool {
        self.next() % PAGE_SIZE == 0
    }

    /// An allocator positioned at the first region.
    pub fn new(regions: &'a [MemoryRegion]) -> (a: Self)
        ensures
            a.wf(),
            a.regions() == regions@,
            a.index() == 0,
            a.next() == 0,
    {
        FrameAllocator { regions, region_index: 0, next_address: 0 }
    }

    /// Total number of whole frames in the usable regions.
    pub fn total_usable_frames(&self) -> (n: u64)
        requires
            usable_starts_alignable(self.regions()),
            usable_total(self.regions()) <= u64::MAX,
        ensures
            n == usable_total(self.regions()),
    {
        let mut total: u64 = 0;
        let mut i: usize = 0;
        proof {
            lemma_usable_total_prefix(self.regions(), 0);
        }
        while i < self.regions.len()
            invariant
                i <= self.regions().len(),
                usable_starts_alignable(self.regions()),
                usable_total(self.regions()) <= u64::MAX,
                total == usable_total(self.regions().subrange(0, i as int)),
            decreases self.regions().len() - i,
        {
            let region = self.regions[i];
            proof {
                let s = self.regions().subrange(0, i as int + 1);
                assert(s.drop_last() =~= self.regions().subrange(0, i as int));
                lemma_usable_total_prefix(self.regions(), i as int + 1);
            }
            if region.kind == MemoryRegionKind::Usable {
                total = total + usable_frame_count(region.start, region.end);
            }
            i = i + 1;
        }
        assert(self.regions().subrange(0, i as int) =~= self.regions());
        total
    }

    /// Hands out the next free frame, walking the usable regions in order, or
    /// `None` when the memory map is exhausted.
    pub fn allocate_frame(&mut self) -> (r: Option<PhysicalFrame>)
        requires
            old(self).wf(),
            usable_starts_alignable(old(self).regions()),
        ensures
            final(self).wf(),
            ({
                let (frame, index, next) = next_frame(
                    old(self).regions(),
                    old(self).index(),
                    old(self).next(),
                );
                &&& r == match frame {
                    Some(address) => Some(PhysicalFrame { start_address: address }),
                    None => None,
                }
                &&& final(self).index() == index
                &&& final(self).next() == next
            }),
            final(self).regions() == old(self).regions(),
            match r {
                Some(frame) => available(
                    old(self).regions(),
                    old(self).index(),
                    old(self).next(),
                    frame.start_address as int,
                ),
                None => forall|a: int| !available(old(self).regions(), old(self).index(), old(self).next(), a),
            },
    {
        let ghost regions = self.regions();
        let ghost start = (self.index(), self.next());
        proof {
            lemma_next_frame_available(regions, self.index(), self.next());
            lemma_exhausted_means_nothing_available(regions, self.index(), self.next());
        }
        while self.region_index < self.regions.len()
            invariant
                self.regions() == regions,
                regions == old(self).regions(),
                start == (old(self).index(), old(self).next()),
                match next_frame(regions, start.0, start.1) {
                    (Some(f), _, _) => available(regions, start.0, start.1, f as int),
                    (None, _, _) => forall|a: int| !available(regions, start.0, start.1, a),
                },
                usable_starts_alignable(regions),
                self.wf(),
                start.0 >= 0,
                start.1 % PAGE_SIZE == 0,
                next_frame(regions, start.0, start.1) == next_frame(
                    regions,
                    self.index(),
                    self.next(),
                ),
            decreases regions.len() - self.index(),
        {
            let region = self.regions[self.region_index];
            if region.kind != MemoryRegionKind::Usable {
                self.region_index = self.region_index + 1;
                self.next_address = 0;
                continue;
            }
            let first_frame = align_up(region.start);
            let last_address = align_down(region.end);
            let address = if self.next_address >= first_frame {
                self.next_address
            } else {
                first_frame
            };
            if address < last_address {
                proof {
                    lemma_align(region.end as int);
                }
                self.next_address = address + PAGE_SIZE;
                return Some(PhysicalFrame { start_address: address });
            }
            self.region_index = self.region_index + 1;
            self.next_address = 0;
        }
        None
    }
}

proof fn lemma_usable_total_prefix(regions: Seq<MemoryRegion>, i: int)
    requires
        0 <= i <= regions.len(),
    ensures
        0 <= usable_total(regions.subrange(0, i)) <= usable_total(regions),
    decreases regions.len() - i,
{
    lemma_usable_total_nonneg(regions.subrange(0, i));
    if i < regions.len() {
        lemma_usable_total_prefix(regions, i + 1);
        assert(regions.subrange(0, i + 1).drop_last() =~= regions.subrange(0, i));
        let r = regions[i];
        if r.kind == MemoryRegionKind::Usable {
            lemma_frame_count_nonneg(r.start as int, r.end as int);
        }
    } else {
        assert(regions.subrange(0, i) =~= regions);
    }
}

proof fn lemma_usable_total_nonneg(regions: Seq<MemoryRegion>)
    ensures
        usable_total(regions) >= 0,
    decreases regions.len(),
{
    if regions.len() > 0 {
        lemma_usable_total_nonneg(regions.drop_last());
        let r = regions.last();
        lemma_frame_count_nonneg(r.start as int, r.end as int);
    }
}

proof fn lemma_frame_count_nonneg(start: int, end: int)
    ensures
        frame_count_spec(start, end) >= 0,
{
    let a = align_up_spec(start);
    let b = align_down_spec(end);
    if b > a {
        assert((b - a) / 4096 >= 0) by (nonlinear_arith)
            requires b > a;
    }
}

/// A frame handed out from a cursor was available at that cursor.
proof fn lemma_next_frame_available(regions: Seq<MemoryRegion>, index: int, next: u64)
    requires
        0 <= index,
        next % PAGE_SIZE == 0,
    ensures
        match next_frame(regions, index, next) {
            (Some(f), i, m) => {
                &&& available(regions, index, next, f as int)
                &&& frame_in_region(regions[i], f as int)
                &&& index <= i < regions.len()
                &&& f >= next || i > index
                &&& m == f + PAGE_SIZE
            },
            (None, _, _) => true,
        },
    decreases regions.len() - index,
{
    if 0 <= index < regions.len() {
        let r = regions[index];
        if r.kind != MemoryRegionKind::Usable {
            lemma_next_frame_available(regions, index + 1, 0);
            lemma_available_later(regions, index, next, index + 1, 0);
        } else {
            let first = align_up_spec(r.start as int);
            let last = align_down_spec(r.end as int);
            let address = if next >= first {
                next as int
            } else {
                first
            };
            lemma_align(r.end as int);
            lemma_align(r.start as int);
            if address < last {
                assert(frame_in_region(regions[index], address));
            } else {
                lemma_next_frame_available(regions, index + 1, 0);
                lemma_available_later(regions, index, next, index + 1, 0);
            }
        }
    }
}

proof fn lemma_available_later(
    regions: Seq<MemoryRegion>,
    index: int,
    next: u64,
    later: int,
    later_next: u64,
)
    requires
        0 <= index < later,
    ensures
        forall|a: int| available(regions, later, later_next, a) ==> available(regions, index, next, a),
{
    assert forall|a: int| available(regions, later, later_next, a) implies available(
        regions,
        index,
        next,
        a,
    ) by {
        let i = choose|i: int|
            0 <= later <= i < regions.len() && frame_in_region(#[trigger] regions[i], a) && (i
                > later || a >= later_next);
        assert(frame_in_region(regions[i], a) && i > index);
    }
}

/// When the allocator reports exhaustion, no frame was left to hand out.
pub proof fn lemma_exhausted_means_nothing_available(regions: Seq<MemoryRegion>, index: int, next: u64)
    requires
        0 <= index,
        next % PAGE_SIZE == 0,
    ensures
        next_frame(regions, index, next).0 is None ==> forall|a: int|
            !available(regions, index, next, a),
        next_frame(regions, index, next).0 is None ==> next_frame(regions, index, next).1
            >= regions.len(),
    decreases regions.len() - index,
{
    if 0 <= index < regions.len() {
        lemma_exhausted_means_nothing_available(regions, index + 1, 0);
        let r = regions[index];
        if next_frame(regions, index, next).0 is None {
            let first = align_up_spec(r.start as int);
            let last = align_down_spec(r.end as int);
            assert forall|a: int| !available(regions, index, next, a) by {
                if available(regions, index, next, a) {
                    let j = choose|j: int|
                        0 <= index <= j < regions.len() && frame_in_region(
                            #[trigger] regions[j],
                            a,
                        ) && (j > index || a >= next);
                    if j > index {
                        assert(available(regions, index + 1, 0, a));
                    }
                }
            }
        }
    }
}

/// A frame handed out is consumed: it is not available from the new cursor,
/// and every frame available from the new cursor was available before.
pub proof fn lemma_frame_consumed(regions: Seq<MemoryRegion>, index: int, next: u64)
    requires
        usable_disjoint(regions),
        0 <= index,
        next % PAGE_SIZE == 0,
    ensures
        match next_frame(regions, index, next) {
            (Some(f), i, m) => {
                &&& !available(regions, i, m, f as int)
                &&& forall|a: int| #[trigger]
                    available(regions, i, m, a) ==> available(regions, index, next, a)
                &&& 0 <= i
                &&& m % PAGE_SIZE == 0
            },
            (None, _, _) => true,
        },
{
    lemma_next_frame_available(regions, index, next);
    if let (Some(f), i, m) = next_frame(regions, index, next) {
        let ri = regions[i];
        lemma_align(ri.start as int);
        lemma_align(ri.end as int);
        if available(regions, i, m, f as int) {
            let j = choose|j: int|
                0 <= i <= j < regions.len() && frame_in_region(#[trigger] regions[j], f as int) && (
                j > i || f >= m);
            let rj = regions[j];
            lemma_align(rj.start as int);
            lemma_align(rj.end as int);
            assert(regions[i].end <= regions[j].start || regions[j].end <= regions[i].start);
        }
        assert forall|a: int| #[trigger]
            available(regions, i, m, a) implies available(regions, index, next, a) by {
            let j = choose|j: int|
                0 <= i <= j < regions.len() && frame_in_region(#[trigger] regions[j], a) && (j > i
                    || a >= m);
            assert(frame_in_region(regions[j], a));
        }
        assert((f + PAGE_SIZE) % (PAGE_SIZE as int) == 0);
    }
}

/// No frame is handed out twice: successive allocations from a cursor give
/// distinct frames, each of which was available from that cursor.
pub proof fn lemma_no_frame_twice(regions: Seq<MemoryRegion>, index: int, next: u64, n: nat)
    requires
        usable_disjoint(regions),
        0 <= index,
        next % PAGE_SIZE == 0,
    ensures
        allocations(regions, index, next, n).no_duplicates(),
        forall|k: int|
            0 <= k < allocations(regions, index, next, n).len() ==> available(
                regions,
                index,
                next,
                #[trigger] allocations(regions, index, next, n)[k] as int,
            ),
    decreases n,
{
    if n > 0 {
        lemma_next_frame_available(regions, index, next);
        lemma_frame_consumed(regions, index, next);
        if let (Some(f), i, m) = next_frame(regions, index, next) {
            lemma_no_frame_twice(regions, i, m, (n - 1) as nat);
            let rest = allocations(regions, i, m, (n - 1) as nat);
            let all = allocations(regions, index, next, n);
            assert(all == seq![f].add(rest));
            assert forall|k: int| 0 <= k < rest.len() implies #[trigger] rest[k] != f by {
                assert(available(regions, i, m, rest[k] as int));
            }
            assert forall|k: int| 0 <= k < all.len() implies available(
                regions,
                index,
                next,
                #[trigger] all[k] as int,
            ) by {
                if k > 0 {
                    assert(all[k] == rest[k - 1]);
                    assert(available(regions, i, m, rest[k - 1] as int));
                }
            }
            assert forall|a: int, b: int| 0 <= a < all.len() && 0 <= b < all.len() && a != b implies #[trigger] all[a] != #[trigger] all[b] by {
                if a == 0 {
                    assert(all[b] == rest[b - 1]);
                } else if b == 0 {
                    assert(all[a] == rest[a - 1]);
                } else {
                    assert(all[a] == rest[a - 1] && all[b] == rest[b - 1]);
                }
            }
        }
    }
}

/// Frames of `region` that can still be handed out at or above `next`.
pub open spec fn frames_left_in(region: MemoryRegion, next: u64) -> int {
    if region.kind != MemoryRegionKind::Usable {
        0
    } else {
        let first = align_up_spec(region.start as int);
        let last = align_down_spec(region.end as int);
        let address = if next >= first {
            next as int
        } else {
            first
        };
        if address < last {
            (last - address) / (PAGE_SIZE as int)
        } else {
            0
        }
    }
}

/// Frames that allocations from the cursor `(index, next)` can still hand out.
pub open spec fn frames_left(regions: Seq<MemoryRegion>, index: int, next: u64) -> int
    decreases regions.len() - index,
{
    if index < 0 || index >= regions.len() {
        0
    } else {
        frames_left_in(regions[index], next) + frames_left(regions, index + 1, 0)
    }
}

proof fn lemma_frames_left_nonneg(regions: Seq<MemoryRegion>, index: int, next: u64)
    ensures
        frames_left(regions, index, next) >= 0,
    decreases regions.len() - index,
{
    if 0 <= index < regions.len() {
        lemma_frames_left_nonneg(regions, index + 1, 0);
        let r = regions[index];
        if r.kind == MemoryRegionKind::Usable {
            let first = align_up_spec(r.start as int);
            let last = align_down_spec(r.end as int);
            let address = if next >= first {
                next as int
            } else {
                first
            };
            if address < last {
                assert((last - address) / 4096 >= 0) by (nonlinear_arith)
                    requires
                        address < last,
                ;
            }
        }
    }
}

/// Each allocation uses up one frame, and exhaustion means none was left.
proof fn lemma_allocation_uses_one_frame(regions: Seq<MemoryRegion>, index: int, next: u64)
    requires
        0 <= index,
        next % PAGE_SIZE == 0,
    ensures
        match next_frame(regions, index, next) {
            (Some(_), i, m) => frames_left(regions, i, m) == frames_left(regions, index, next) - 1,
            (None, _, _) => frames_left(regions, index, next) == 0,
        },
    decreases regions.len() - index,
{
    if 0 <= index < regions.len() {
        lemma_allocation_uses_one_frame(regions, index + 1, 0);
        let r = regions[index];
        if r.kind == MemoryRegionKind::Usable {
            let first = align_up_spec(r.start as int);
            let last = align_down_spec(r.end as int);
            lemma_align(r.start as int);
            lemma_align(r.end as int);
            let address = if next >= first {
                next as int
            } else {
                first
            };
            if address < last {
                let m = address + 4096;
                assert(address % 4096 == 0);
                assert(last % 4096 == 0);
                assert((last - address) / 4096 == (last - m) / 4096 + 1) by (nonlinear_arith)
                    requires
                        address % 4096 == 0,
                        last % 4096 == 0,
                        address < last,
                        m == address + 4096,
                ;
                if m < last {
                } else {
                    assert(m == last) by (nonlinear_arith)
                        requires
                            address % 4096 == 0,
                            last % 4096 == 0,
                            address < last,
                            m == address + 4096,
                            m >= last,
                    ;
                }
            }
        }
    }
}

/// Successive allocations hand out frames until `frames_left` is used up.
proof fn lemma_allocations_len(regions: Seq<MemoryRegion>, index: int, next: u64, n: nat)
    requires
        0 <= index,
        next % PAGE_SIZE == 0,
    ensures
        allocations(regions, index, next, n).len() == if n <= frames_left(regions, index, next) {
            n as int
        } else {
            frames_left(regions, index, next)
        },
    decreases n,
{
    lemma_frames_left_nonneg(regions, index, next);
    if n > 0 {
        lemma_allocation_uses_one_frame(regions, index, next);
        lemma_next_frame_available(regions, index, next);
        if let (Some(f), i, m) = next_frame(regions, index, next) {
            assert((f + PAGE_SIZE) % (PAGE_SIZE as int) == 0);
            lemma_allocations_len(regions, i, m, (n - 1) as nat);
        }
    }
}

proof fn lemma_frames_left_is_total(regions: Seq<MemoryRegion>, i: int)
    requires
        0 <= i <= regions.len(),
    ensures
        frames_left(regions, i, 0) == usable_total(regions) - usable_total(regions.subrange(0, i)),
    decreases regions.len() - i,
{
    if i == regions.len() {
        assert(regions.subrange(0, i) =~= regions);
    } else {
        lemma_frames_left_is_total(regions, i + 1);
        assert(regions.subrange(0, i + 1).drop_last() =~= regions.subrange(0, i));
        let r = regions[i];
        lemma_align(r.start as int);
    }
}

/// A fresh allocator hands out exactly `total_usable_frames` frames: the
/// first `n` allocations succeed while `n` does not exceed that total, and
/// every later allocation reports exhaustion.
pub proof fn lemma_allocator_hands_out_every_usable_frame(regions: Seq<MemoryRegion>, n: nat)
    ensures
        allocations(regions, 0, 0, n).len() == if n <= usable_total(regions) {
            n as int
        } else {
            usable_total(regions)
        },
{
    lemma_frames_left_is_total(regions, 0);
    assert(regions.subrange(0, 0) =~= Seq::<MemoryRegion>::empty());
    lemma_allocations_len(regions, 0, 0, n);
}

/// A frame that can be handed out lies wholly inside a usable region, on a
/// frame boundary.
pub proof fn lemma_available_frame_is_inside_usable_region(
    regions: Seq<MemoryRegion>,
    index: int,
    next: u64,
    address: int,
)
    requires
        available(regions, index, next, address),
    ensures
        address % (PAGE_SIZE as int) == 0,
        exists|i: int|
            0 <= i < regions.len() && (#[trigger] regions[i]).kind == MemoryRegionKind::Usable
                && regions[i].start <= address && address + PAGE_SIZE <= regions[i].end,
{
    let i = choose|i: int|
        0 <= index <= i < regions.len() && frame_in_region(#[trigger] regions[i], address) && (i
            > index || address >= next);
    let r = regions[i];
    lemma_align(r.start as int);
    lemma_align(r.end as int);
    let last = align_down_spec(r.end as int);
    assert(address + 4096 <= last) by (nonlinear_arith)
        requires
            address % 4096 == 0,
            last % 4096 == 0,
            address < last,
    ;
}

/// The total of usable frames is a property of the memory map alone:
/// `allocate_frame` keeps the allocator's regions, so an allocator built over
/// `regions` reports, through `total_usable_frames`, the same total before and
/// after any number of allocations, namely the sum of the frame counts of the
/// usable regions in `regions`.
pub proof fn lemma_total_is_independent_of_allocations(
    fresh: FrameAllocator,
    later: FrameAllocator,
    regions: Seq<MemoryRegion>,
)
    requires
        fresh.regions() == regions,
        later.regions() == regions,
    ensures
        usable_total(later.regions()) == usable_total(fresh.regions()),
        usable_total(later.regions()) == usable_total(regions),
{
}

} // verus!
