use nastalli::kernel::heap::{align_up, SIZE};
use nastalli::kernel::task::TaskState;
use nastalli::kernel::{banner_offsets, bootstrap_task_table, FrameBufferInfo};

#[test]
fn heap_alignment_rounds_up_to_eight_bytes() {
    assert_eq!(align_up(9, 8), 16);
}

#[test]
fn heap_alignment_keeps_aligned_addresses() {
    assert_eq!(align_up(16, 8), 16);
    assert_eq!(align_up(0, 8), 0);
    assert_eq!(align_up(1, 4096), 4096);
    assert_eq!(align_up(7, 1), 7);
    assert_eq!(SIZE, 64 * 1024);
}

#[test]
fn bootstrap_task_table_contains_one_task() {
    let tasks = bootstrap_task_table();
    assert_eq!(tasks.len(), 1);
}

#[test]
fn bootstrap_task_runs() {
    let tasks = bootstrap_task_table();
    let id = tasks.running_task().unwrap();
    assert_eq!(id.raw(), 0);
    assert_eq!(tasks.get(id).unwrap().state(), TaskState::Running);
}

#[test]
fn banner_covers_the_clipped_corner_row_by_row() {
    let info = FrameBufferInfo { width: 2, height: 2, stride: 4, bytes_per_pixel: 4 };
    assert_eq!(banner_offsets(info, 1024), vec![0, 4, 16, 20]);
}

#[test]
fn banner_skips_pixels_beyond_the_buffer() {
    let info = FrameBufferInfo { width: 2, height: 2, stride: 4, bytes_per_pixel: 4 };
    assert_eq!(banner_offsets(info, 19), vec![0, 4, 16]);
    assert_eq!(banner_offsets(info, 0), Vec::<usize>::new());
}

#[test]
fn banner_is_at_most_320_by_80() {
    let info = FrameBufferInfo { width: 1024, height: 768, stride: 1024, bytes_per_pixel: 3 };
    let offsets = banner_offsets(info, 1024 * 768 * 3);
    assert_eq!(offsets.len(), 320 * 80);
    assert_eq!(offsets[319], 319 * 3);
    assert_eq!(offsets[320], 1024 * 3);
    assert_eq!(*offsets.last().unwrap(), 79 * 1024 * 3 + 319 * 3);
}
