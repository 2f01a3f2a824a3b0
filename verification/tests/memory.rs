use nastalli::kernel::memory::{
    usable_frame_count, FrameAllocator, MemoryRegion, MemoryRegionKind, PhysicalFrame,
};

#[test]
fn frame_count_ignores_unaligned_edges() {
    assert_eq!(usable_frame_count(0x1003, 0x4001), 2);
}

#[test]
fn frame_count_of_a_region_smaller_than_a_frame_is_zero() {
    assert_eq!(usable_frame_count(0x1001, 0x1fff), 0);
    assert_eq!(usable_frame_count(0x5000, 0x1000), 0);
    assert_eq!(usable_frame_count(0x1000, 0x3000), 2);
}

#[test]
fn allocator_returns_only_usable_aligned_frames() {
    let regions = [
        MemoryRegion { start: 0x1003, end: 0x3001, kind: MemoryRegionKind::Usable },
        MemoryRegion { start: 0x3001, end: 0x5000, kind: MemoryRegionKind::Bootloader },
    ];
    let mut allocator = FrameAllocator::new(&regions);

    assert_eq!(allocator.allocate_frame().unwrap().start_address, 0x2000);
    assert_eq!(allocator.allocate_frame(), None);
}

#[test]
fn allocator_walks_regions_in_order_and_counts_usable_frames() {
    let regions = [
        MemoryRegion { start: 0x0, end: 0x1000, kind: MemoryRegionKind::UnknownBios(2) },
        MemoryRegion { start: 0x10000, end: 0x12000, kind: MemoryRegionKind::Usable },
        MemoryRegion { start: 0x12000, end: 0x13000, kind: MemoryRegionKind::UnknownUefi(7) },
        MemoryRegion { start: 0x20000, end: 0x21000, kind: MemoryRegionKind::Usable },
    ];
    let mut allocator = FrameAllocator::new(&regions);
    assert_eq!(allocator.total_usable_frames(), 3);
    assert_eq!(allocator.allocate_frame(), Some(PhysicalFrame { start_address: 0x10000 }));
    assert_eq!(allocator.allocate_frame(), Some(PhysicalFrame { start_address: 0x11000 }));
    assert_eq!(allocator.allocate_frame(), Some(PhysicalFrame { start_address: 0x20000 }));
    assert_eq!(allocator.allocate_frame(), None);
    assert_eq!(allocator.allocate_frame(), None);
}

#[test]
fn allocator_over_an_empty_map_is_exhausted() {
    let regions: [MemoryRegion; 0] = [];
    let mut allocator = FrameAllocator::new(&regions);
    assert_eq!(allocator.total_usable_frames(), 0);
    assert_eq!(allocator.allocate_frame(), None);
}

#[test]
fn allocator_hands_out_each_usable_frame_once() {
    let regions = [
        MemoryRegion { start: 0x7000, end: 0x9800, kind: MemoryRegionKind::Usable },
        MemoryRegion { start: 0x1000, end: 0x3000, kind: MemoryRegionKind::Usable },
        MemoryRegion { start: 0x3000, end: 0x7000, kind: MemoryRegionKind::Bootloader },
    ];
    let mut allocator = FrameAllocator::new(&regions);
    let total = allocator.total_usable_frames();
    let mut frames = Vec::new();
    while let Some(frame) = allocator.allocate_frame() {
        assert_eq!(frame.start_address % 4096, 0);
        frames.push(frame.start_address);
    }
    assert_eq!(frames, vec![0x7000, 0x8000, 0x1000, 0x2000]);
    assert_eq!(frames.len() as u64, total);
    let mut sorted = frames.clone();
    sorted.sort();
    sorted.dedup();
    assert_eq!(sorted.len(), frames.len());
}

#[test]
fn total_usable_frames_does_not_change_as_frames_are_handed_out() {
    let regions = [
        MemoryRegion { start: 0x1000, end: 0x4000, kind: MemoryRegionKind::Usable },
        MemoryRegion { start: 0x4000, end: 0x5000, kind: MemoryRegionKind::Bootloader },
    ];
    let mut allocator = FrameAllocator::new(&regions);
    assert_eq!(allocator.total_usable_frames(), 3);
    allocator.allocate_frame().unwrap();
    assert_eq!(allocator.total_usable_frames(), 3);
    while allocator.allocate_frame().is_some() {}
    assert_eq!(allocator.total_usable_frames(), 3);
}
