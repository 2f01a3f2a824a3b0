//! Round-robin scheduling policy over the task table.
//!
//! The scheduler only decides which task should run and keeps the task states
//! consistent with that decision; saving and restoring CPU state belongs to
//! the architecture layer.
use vstd::prelude::*;

use crate::arch::context::Context;
use crate::kernel::task::{
    find_task, holds_id, holds_state, ids_unique, lemma_find_task, lemma_running_task, next_ready_of,
    ready_from, restated, running_task_of, scan_start, slot_id, Task, TaskId, TaskState, TaskTable,
    TaskTableError, MAX_TASKS,
};

verus! {

/// Number of timer ticks a task runs before the scheduler rotates.
pub const DEFAULT_QUANTUM: u64 = 5;

/// What the scheduler decided on a timer tick.
#[derive(Debug, Clone, Copy, PartialEq, Eq, Structural)]
pub enum ScheduleDecision {
    /// The running task keeps the CPU.
    Continue(TaskId),
    /// Stop `from` (now ready) and run `to` (now running).
    Switch { from: TaskId, to: TaskId },
    /// No task is running.
    Idle,
}

/// Round-robin scheduler owning the task table.
pub struct Scheduler {
    tasks: TaskTable,
    quantum: u64,
    elapsed: u64,
}

/// A ready task returned by the round-robin scan is stored in the table, in a
/// ready slot.
proof fn lemma_ready_from(slots: Seq<Option<Task>>, start: int, offset: int)
    requires
        slots.len() == MAX_TASKS,
        0 <= offset,
        0 <= start,
    ensures
        match ready_from(slots, start, offset) {
            Some(id) => exists|k: int|
                0 <= k < slots.len() && holds_state(#[trigger] slots[k], TaskState::Ready)
                    && slot_id(slots[k]) == id,
            None => true,
        },
    decreases MAX_TASKS - offset,
{
    if offset < MAX_TASKS {
        lemma_ready_from(slots, start, offset + 1);
        let i = (start + offset) % (MAX_TASKS as int);
        if holds_state(slots[i], TaskState::Ready) {
            assert(holds_state(slots[i], TaskState::Ready) && slot_id(slots[i]) == slot_id(
                slots[i],
            ));
        }
    }
}

/// The next ready task in round-robin order is a task of the table that is
/// ready, so it differs from the running one.
pub proof fn lemma_next_ready(slots: Seq<Option<Task>>, current: Option<TaskId>)
    requires
        slots.len() == MAX_TASKS,
        ids_unique(slots),
    ensures
        match next_ready_of(slots, current) {
            Some(id) => match find_task(slots, id) {
                Some(k) => holds_state(slots[k], TaskState::Ready),
                None => false,
            },
            None => true,
        },
{
    let start = scan_start(slots, current);
    match current {
        Some(c) => {
            lemma_find_task(slots, c);
        },
        None => {},
    }
    assert(0 <= start);
    lemma_ready_from(slots, start, 0);
    if let Some(id) = next_ready_of(slots, current) {
        let k = choose|k: int|
            0 <= k < slots.len() && holds_state(#[trigger] slots[k], TaskState::Ready) && slot_id(
                slots[k],
            ) == id;
        lemma_find_task(slots, id);
        assert(holds_id(slots[k], id));
    }
}

/// What a timer tick does. With no running task the scheduler is idle and
/// nothing changes. Otherwise the running task keeps the CPU until it has used
/// `quantum` ticks; then the first ready task after it in round-robin order
/// becomes running and the old one ready, or, when no task is ready, the
/// running task starts a new slice.
pub open spec fn tick_outcome(earlier: Scheduler, later: Scheduler, d: ScheduleDecision) -> bool {
    match running_task_of(earlier.table().slots()) {
        None => d == ScheduleDecision::Idle && later.table() == earlier.table()
            && later.elapsed() == earlier.elapsed(),
        Some(current) => if earlier.elapsed() + 1 < earlier.spec_quantum() {
            &&& d == ScheduleDecision::Continue(current)
            &&& later.table() == earlier.table()
            &&& later.elapsed() == earlier.elapsed() + 1
        } else {
            &&& later.elapsed() == 0
            &&& match next_ready_of(earlier.table().slots(), Some(current)) {
                None => d == ScheduleDecision::Continue(current) && later.table()
                    == earlier.table(),
                Some(next) => {
                    let before = earlier.table().slots();
                    let after = later.table().slots();
                    &&& d == (ScheduleDecision::Switch { from: current, to: next })
                    &&& match (find_task(before, current), find_task(before, next)) {
                        (Some(kc), Some(kn)) => {
                            &&& kc != kn
                            &&& restated(before[kc], after[kc], TaskState::Ready)
                            &&& restated(before[kn], after[kn], TaskState::Running)
                            &&& after.len() == before.len()
                            &&& forall|j: int|
                                0 <= j < before.len() && j != kc && j != kn
                                    ==> #[trigger] after[j] == before[j]
                        },
                        _ => false,
                    }
                },
            }
        },
    }
}

/// After a switch the task handed the CPU is found running and the one it
/// replaced is found ready.
pub proof fn lemma_switch_is_observed(
    before: Scheduler,
    after: Scheduler,
    from: TaskId,
    to: TaskId,
)
    requires
        before.wf(),
        after.wf(),
        tick_outcome(before, after, ScheduleDecision::Switch { from, to }),
    ensures
        match (find_task(after.table().slots(), from), find_task(after.table().slots(), to)) {
            (Some(kf), Some(kt)) => {
                &&& holds_state(after.table().slots()[kf], TaskState::Ready)
                &&& holds_state(after.table().slots()[kt], TaskState::Running)
                &&& running_task_of(after.table().slots()) == Some(to)
            },
            _ => false,
        },
{
    let earlierlots = before.table().slots();
    let laterlots = after.table().slots();
    assert(running_task_of(earlierlots) == Some(from));
    assert(next_ready_of(earlierlots, Some(from)) == Some(to));
    lemma_running_task(earlierlots);
    lemma_find_task(earlierlots, from);
    lemma_find_task(earlierlots, to);
    let kf = find_task(earlierlots, from)->0;
    let kt = find_task(earlierlots, to)->0;
    assert(holds_id(laterlots[kf], from));
    assert(holds_id(laterlots[kt], to));
    lemma_find_task(laterlots, from);
    lemma_find_task(laterlots, to);
    lemma_running_task(laterlots);
    if let Some(r) = running_task_of(laterlots) {
        lemma_find_task(laterlots, r);
        let k = find_task(laterlots, r)->0;
        assert(holds_state(laterlots[k], TaskState::Running));
        assert(holds_state(laterlots[kt], TaskState::Running));
        if k != kt {
            assert(!(holds_state(laterlots[k], TaskState::Running) && holds_state(
                laterlots[kt],
                TaskState::Running,
            )));
        }
        assert(holds_id(laterlots[k], r));
    }
}

/// Facts about the scan from `start`: a result is the first ready slot met
/// going forward from offset `offset`; no result means no ready slot is met.
proof fn lemma_ready_from_first(slots: Seq<Option<Task>>, start: int, offset: int)
    requires
        slots.len() == MAX_TASKS,
        0 <= offset <= MAX_TASKS,
        0 <= start,
    ensures
        match ready_from(slots, start, offset) {
            Some(t) => exists|o: int|
                offset <= o < MAX_TASKS && holds_state(
                    #[trigger] slots[(start + o) % (MAX_TASKS as int)],
                    TaskState::Ready,
                ) && slot_id(slots[(start + o) % (MAX_TASKS as int)]) == t && forall|e: int|
                    offset <= e < o ==> !holds_state(
                        #[trigger] slots[(start + e) % (MAX_TASKS as int)],
                        TaskState::Ready,
                    ),
            None => forall|e: int|
                offset <= e < MAX_TASKS ==> !holds_state(
                    #[trigger] slots[(start + e) % (MAX_TASKS as int)],
                    TaskState::Ready,
                ),
        },
    decreases MAX_TASKS - offset,
{
    if offset < MAX_TASKS {
        lemma_ready_from_first(slots, start, offset + 1);
        let i = (start + offset) % (MAX_TASKS as int);
        if !holds_state(slots[i], TaskState::Ready) {
            if let Some(t) = ready_from(slots, start, offset + 1) {
                let o = choose|o: int|
                    offset + 1 <= o < MAX_TASKS && holds_state(
                        #[trigger] slots[(start + o) % (MAX_TASKS as int)],
                        TaskState::Ready,
                    ) && slot_id(slots[(start + o) % (MAX_TASKS as int)]) == t && forall|e: int|
                        offset + 1 <= e < o ==> !holds_state(
                            #[trigger] slots[(start + e) % (MAX_TASKS as int)],
                            TaskState::Ready,
                        );
                assert forall|e: int| offset <= e < o implies !holds_state(
                    #[trigger] slots[(start + e) % (MAX_TASKS as int)],
                    TaskState::Ready,
                ) by {
                    if e > offset {
                    }
                }
            }
        }
    }
}

/// Round robin: the task chosen after `current` (in slot `k`) is the ready
/// task at the least distance `d` (1 to `MAX_TASKS`) forward from `k`,
/// wrapping around, so no slot strictly between `k` and the chosen one holds
/// a ready task and every ready task is chosen within one rotation; when no
/// task is chosen, no slot holds a ready task.
pub proof fn lemma_round_robin_picks_nearest_ready(
    slots: Seq<Option<Task>>,
    current: TaskId,
    k: int,
)
    requires
        slots.len() == MAX_TASKS,
        ids_unique(slots),
        0 <= k < MAX_TASKS,
        holds_id(slots[k], current),
    ensures
        match next_ready_of(slots, Some(current)) {
            Some(t) => exists|d: int|
                1 <= d <= MAX_TASKS && holds_state(
                    #[trigger] slots[(k + d) % (MAX_TASKS as int)],
                    TaskState::Ready,
                ) && slot_id(slots[(k + d) % (MAX_TASKS as int)]) == t && forall|e: int|
                    1 <= e < d ==> !holds_state(
                        #[trigger] slots[(k + e) % (MAX_TASKS as int)],
                        TaskState::Ready,
                    ),
            None => forall|i: int|
                0 <= i < MAX_TASKS ==> !holds_state(#[trigger] slots[i], TaskState::Ready),
        },
{
    lemma_find_task(slots, current);
    assert(find_task(slots, current) == Some(k));
    let n = MAX_TASKS as int;
    let start = (k + 1) % n;
    assert(scan_start(slots, Some(current)) == start);
    lemma_ready_from_first(slots, start, 0);
    assert forall|o: int| 0 <= o < n implies #[trigger] ((start + o) % n) == (k + 1 + o) % n by {
        if k + 1 < n {
            assert(start == k + 1);
        } else {
            assert(start == 0);
            assert(k + 1 == n);
            assert((k + 1 + o) % n == o);
        }
    }
    match next_ready_of(slots, Some(current)) {
        Some(t) => {
            let o = choose|o: int|
                0 <= o < n && holds_state(
                    #[trigger] slots[(start + o) % n],
                    TaskState::Ready,
                ) && slot_id(slots[(start + o) % n]) == t && forall|e: int|
                    0 <= e < o ==> !holds_state(#[trigger] slots[(start + e) % n], TaskState::Ready);
            let d = o + 1;
            assert((start + o) % n == (k + d) % n);
            assert forall|e: int| 1 <= e < d implies !holds_state(
                #[trigger] slots[(k + e) % n],
                TaskState::Ready,
            ) by {
                assert((start + (e - 1)) % n == (k + e) % n);
            }
            assert(holds_state(slots[(k + d) % n], TaskState::Ready));
        },
        None => {
            assert forall|i: int| 0 <= i < n implies !holds_state(
                #[trigger] slots[i],
                TaskState::Ready,
            ) by {
                let o = if i > k {
                    i - k - 1
                } else {
                    i - k - 1 + n
                };
                assert(0 <= o < n);
                assert((start + o) % n == (k + 1 + o) % n);
                assert((k + 1 + o) % n == i);
            }
        },
    }
}

impl Scheduler {
    /// The task table the scheduler owns.
    pub closed spec fn table(&self) -> TaskTable {
        self.tasks
    }

    /// Ticks per time slice.
    pub closed spec fn spec_quantum(&self) -> u64 {
        self.quantum
    }

    /// Ticks the running task has used of its current slice.
    pub closed spec fn elapsed(&self) -> u64 {
        self.elapsed
    }

    /// The scheduler's invariant: a well-formed table, and a slice counter
    /// below the quantum (or zero).
    pub open spec fn wf(&self) -> bool {
        &&& self.table().wf()
        &&& (self.elapsed() < self.spec_quantum() || self.elapsed() == 0)
    }

    /// A scheduler with the default quantum of five ticks.
    pub fn new(tasks: TaskTable) -> (s: Self)
        requires
            tasks.wf(),
        ensures
            s.wf(),
            s.table() == tasks,
            s.spec_quantum() == DEFAULT_QUANTUM,
            s.elapsed() == 0,
    {
        Scheduler { tasks, quantum: DEFAULT_QUANTUM, elapsed: 0 }
    }

    /// A scheduler that rotates tasks every `quantum` ticks.
    pub fn with_quantum(tasks: TaskTable, quantum: u64) -> (s: Self)
        requires
            tasks.wf(),
        ensures
            s.wf(),
            s.table() == tasks,
            s.spec_quantum() == quantum,
            s.elapsed() == 0,
    {
        Scheduler { tasks, quantum, elapsed: 0 }
    }

    /// Ticks per time slice.
    pub fn quantum(&self) -> (q: u64)
        ensures
            q == self.spec_quantum(),
    {
        self.quantum
    }

    /// The owned task table.
    pub fn tasks(&self) -> (t: &TaskTable)
        ensures
            *t == self.table(),
    {
        &self.tasks
    }

    /// Accounts one timer tick (see `tick_outcome`).
    pub fn on_tick(&mut self) -> (d: ScheduleDecision)
        requires
            old(self).wf(),
        ensures
            final(self).wf(),
            final(self).spec_quantum() == old(self).spec_quantum(),
            final(self).table().issued() == old(self).table().issued(),
            tick_outcome(*old(self), *final(self), d),
    {
        let ghost slots = self.tasks.slots();
        proof {
            lemma_running_task(slots);
        }
        let current = match self.tasks.running_task() {
            Some(id) => id,
            None => return ScheduleDecision::Idle,
        };
        let elapsed = self.elapsed + 1;
        if elapsed < self.quantum {
            self.elapsed = elapsed;
            return ScheduleDecision::Continue(current);
        }
        self.elapsed = 0;
        proof {
            lemma_next_ready(slots, Some(current));
            lemma_find_task(slots, current);
        }
        let next = match self.tasks.next_ready_after(Some(current)) {
            Some(id) => id,
            None => return ScheduleDecision::Continue(current),
        };
        let ghost kc = find_task(slots, current)->0;
        let ghost kn = find_task(slots, next)->0;
        proof {
            lemma_find_task(slots, next);
        }
        match self.tasks.set_state(current, TaskState::Ready) {
            Ok(()) => {},
            Err(_) => {
                assert(false);
                return ScheduleDecision::Idle;
            },
        }
        let ghost middle = self.tasks.slots();
        proof {
            lemma_find_task(middle, next);
            assert(holds_id(middle[kn], next));
            assert forall|i: int|
                0 <= i < middle.len() implies !holds_state(
                #[trigger] middle[i],
                TaskState::Running,
            ) by {
                if i != kc {
                    assert(middle[i] == slots[i]);
                }
            }
        }
        match self.tasks.set_state(next, TaskState::Running) {
            Ok(()) => {},
            Err(_) => {
                assert(false);
                return ScheduleDecision::Idle;
            },
        }
        ScheduleDecision::Switch { from: current, to: next }
    }

    /// The saved contexts a cooperative switch moves between: that of the
    /// outgoing task `from` and that of the incoming task `to`. Any other
    /// decision, or a task that is not in the table, gives `None`.
    pub fn prepare_context_switch(&self, decision: ScheduleDecision) -> (r: Option<(Context, Context)>)
        requires
            self.wf(),
        ensures
            r == match decision {
                ScheduleDecision::Switch { from, to } => match (
                    find_task(self.table().slots(), from),
                    find_task(self.table().slots(), to),
                ) {
                    (Some(kf), Some(kt)) => Some(
                        (
                            self.table().slots()[kf]->0.context(),
                            self.table().slots()[kt]->0.context(),
                        ),
                    ),
                    _ => None,
                },
                _ => None,
            },
    {
        match decision {
            ScheduleDecision::Switch { from, to } => {
                proof {
                    lemma_find_task(self.tasks.slots(), from);
                    lemma_find_task(self.tasks.slots(), to);
                }
                let outgoing = match self.tasks.context(from) {
                    Ok(context) => context,
                    Err(_) => return None,
                };
                let incoming = match self.tasks.context(to) {
                    Ok(context) => context,
                    Err(_) => return None,
                };
                Some((outgoing, incoming))
            },
            _ => None,
        }
    }

    /// State of task `id`.
    pub fn task_state(&self, id: TaskId) -> (r: Result<TaskState, TaskTableError>)
        requires
            self.wf(),
        ensures
            match r {
                Ok(s) => match find_task(self.table().slots(), id) {
                    Some(k) => holds_state(self.table().slots()[k], s),
                    None => false,
                },
                Err(e) => e == TaskTableError::NotFound && find_task(self.table().slots(), id)
                    is None,
            },
    {
        match self.tasks.get(id) {
            Ok(task) => Ok(task.state()),
            Err(e) => Err(e),
        }
    }
}

} // verus!
