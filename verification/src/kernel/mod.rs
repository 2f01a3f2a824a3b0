//! Kernel policy: tasks and scheduling, physical memory, heap layout, and the
//! decisions taken while the kernel boots.
use vstd::prelude::*;

pub mod heap;
pub mod memory;
pub mod scheduler;
pub mod task;

use crate::arch::context::Context;
use crate::kernel::task::{
    count_tasks, holds_state, TaskId, TaskState, TaskTable, MAX_TASKS,
};

verus! {

/// The task table the kernel boots with: one task, identifier 0, running.
pub fn bootstrap_task_table() -> (tasks: TaskTable)
    ensures
        tasks.wf(),
        count_tasks(tasks.slots()) == 1,
        tasks.issued() == 1,
        match tasks.slots()[0] {
            Some(t) => t.id() == TaskId(0) && t.state() == TaskState::Running && t.context()
                == Context { stack_pointer: 0 } && t.kernel_stack() is None,
            None => false,
        },
        forall|i: int| 1 <= i < MAX_TASKS ==> (#[trigger] tasks.slots()[i]) is None,
{
    let mut tasks = TaskTable::new();
    let ghost empty = tasks.slots();
    let id = match tasks.create() {
        Ok(id) => id,
        Err(_) => {
            assert(empty[0] is None);
            assert(false);
            return tasks;
        },
    };
    let ghost created = tasks.slots();
    proof {
        assert(empty[0] is None);
        assert(created[0] is Some);
    }
    match tasks.set_state(id, TaskState::Running) {
        Ok(()) => {},
        Err(_) => {
            assert(holds_state(created[0], TaskState::Ready));
            assert(created[0] is Some && created[0]->0.id() == id);
            assert(false);
        },
    }
    proof {
        let s = tasks.slots();
        assert forall|i: int| 1 <= i < MAX_TASKS implies (#[trigger] s[i]) is None by {
            assert(created[i] == empty[i]);
        }
        reveal_with_fuel(count_tasks, 17);
    }
    tasks
}

/// Geometry of a pixel framebuffer.
#[derive(Debug, Clone, Copy, PartialEq, Eq, Structural)]
pub struct FrameBufferInfo {
    /// Width in pixels.
    pub width: usize,
    /// Height in pixels.
    pub height: usize,
    /// Pixels from the start of one line to the start of the next.
    pub stride: usize,
    /// Bytes per pixel.
    pub bytes_per_pixel: usize,
}

/// Width in pixels of the boot banner painted at the top-left corner.
pub const BANNER_WIDTH: usize = 320;

/// Height in pixels of the boot banner.
pub const BANNER_HEIGHT: usize = 80;

/// The three colour bytes written at each banner pixel.
pub const BANNER_COLOR: [u8; 3] = [0x20, 0x10, 0x40];

pub open spec fn banner_width(info: FrameBufferInfo) -> int {
    if info.width < BANNER_WIDTH {
        info.width as int
    } else {
        BANNER_WIDTH as int
    }
}

pub open spec fn banner_height(info: FrameBufferInfo) -> int {
    if info.height < BANNER_HEIGHT {
        info.height as int
    } else {
        BANNER_HEIGHT as int
    }
}

/// Byte offset of pixel `(x, y)`.
pub open spec fn pixel_offset(info: FrameBufferInfo, x: int, y: int) -> int {
    y * info.stride * info.bytes_per_pixel + x * info.bytes_per_pixel
}

/// Offsets of the first `count` pixels of banner row `y` whose three colour
/// bytes fit in a buffer of `len` bytes, left to right.
pub open spec fn row_offsets(info: FrameBufferInfo, len: int, y: int, count: int) -> Seq<usize>
    decreases count,
{
    if count <= 0 {
        Seq::empty()
    } else {
        row_offsets(info, len, y, count - 1) + if pixel_offset(info, count - 1, y) + 3 <= len {
            seq![pixel_offset(info, count - 1, y) as usize]
        } else {
            Seq::empty()
        }
    }
}

/// Offsets of the banner pixels of the first `rows` rows that fit in a buffer
/// of `len` bytes, row by row.
pub open spec fn banner_rows(info: FrameBufferInfo, len: int, rows: int) -> Seq<usize>
    decreases rows,
{
    if rows <= 0 {
        Seq::empty()
    } else {
        banner_rows(info, len, rows - 1) + row_offsets(info, len, rows - 1, banner_width(info))
    }
}

/// Computing the offset of the banner's last pixel does not overflow.
pub open spec fn banner_fits(info: FrameBufferInfo) -> bool {
    banner_width(info) > 0 && banner_height(info) > 0 ==> {
        &&& (banner_height(info) - 1) * info.stride <= usize::MAX
        &&& pixel_offset(info, banner_width(info) - 1, banner_height(info) - 1) + 3 <= usize::MAX
    }
}

/// Byte offsets at which the boot banner's colour is written, in painting
/// order: the top-left `BANNER_WIDTH` x `BANNER_HEIGHT` pixels (clipped to
/// the screen), row by row, skipping pixels whose three bytes would not fit
/// in a buffer of `buffer_len` bytes.
pub fn banner_offsets(info: FrameBufferInfo, buffer_len: usize) -> (offsets: Vec<usize>)
    requires
        banner_fits(info),
    ensures
        offsets@ == banner_rows(info, buffer_len as int, banner_height(info)),
{
    let width = if info.width < BANNER_WIDTH {
        info.width
    } else {
        BANNER_WIDTH
    };
    let height = if info.height < BANNER_HEIGHT {
        info.height
    } else {
        BANNER_HEIGHT
    };
    let mut offsets: Vec<usize> = Vec::new();
    let mut y: usize = 0;
    while y < height
        invariant
            y <= height,
            width == banner_width(info),
            height == banner_height(info),
            banner_fits(info),
            offsets@ == banner_rows(info, buffer_len as int, y as int),
        decreases height - y,
    {
        let ghost before = offsets@;
        let mut x: usize = 0;
        while x < width
            invariant
                x <= width,
                y < height,
                width == banner_width(info),
                height == banner_height(info),
                banner_fits(info),
                offsets@ == before + row_offsets(info, buffer_len as int, y as int, x as int),
            decreases width - x,
        {
            proof {
                lemma_pixel_offset_bound(info, x as int, y as int, width - 1, height - 1);
            }
            let byte_offset = y * info.stride * info.bytes_per_pixel + x * info.bytes_per_pixel;
            if byte_offset + 3 <= buffer_len {
                offsets.push(byte_offset);
            }
            x = x + 1;
            proof {
                assert(offsets@ =~= before + row_offsets(info, buffer_len as int, y as int, x as int));
            }
        }
        y = y + 1;
        proof {
            assert(offsets@ =~= banner_rows(info, buffer_len as int, y as int));
        }
    }
    offsets
}

proof fn lemma_pixel_offset_bound(info: FrameBufferInfo, x: int, y: int, w: int, h: int)
    requires
        0 <= x <= w,
        0 <= y <= h,
    ensures
        y * info.stride <= h * info.stride,
        y * info.stride * info.bytes_per_pixel <= h * info.stride * info.bytes_per_pixel,
        x * info.bytes_per_pixel <= w * info.bytes_per_pixel,
        pixel_offset(info, x, y) <= pixel_offset(info, w, h),
        0 <= y * info.stride,
        0 <= y * info.stride * info.bytes_per_pixel,
        0 <= x * info.bytes_per_pixel,
{
    let s = info.stride as int;
    let b = info.bytes_per_pixel as int;
    assert(y * s <= h * s && 0 <= y * s) by (nonlinear_arith)
        requires
            0 <= y <= h,
            0 <= s,
    ;
    assert(y * s * b <= h * s * b && 0 <= y * s * b) by (nonlinear_arith)
        requires
            0 <= y * s <= h * s,
            0 <= b,
    ;
    assert(x * b <= w * b && 0 <= x * b) by (nonlinear_arith)
        requires
            0 <= x <= w,
            0 <= b,
    ;
}

} // verus!
