//! Minimal kernel task structures.
//!
//! Tasks own identity, scheduler-visible state, saved execution context, and
//! optional kernel-stack metadata. The fixed-size table avoids depending on a
//! dynamic task-storage policy while virtual memory and process lifecycle are
//! still being built.
use vstd::prelude::*;

use crate::arch::context::Context;

verus! {

/// Capacity of the task table.
pub const MAX_TASKS: usize = 16;

/// Opaque, monotonically issued task identifier.
#[derive(Debug, Clone, Copy, PartialEq, Eq, Structural)]
pub struct TaskId(pub u64);

impl TaskId {
    /// The raw identifier value.
    pub fn raw(self) -> (r: u64)
        ensures
            r == self.0,
    {
        self.0
    }
}

/// Scheduler-visible task state.
#[derive(Debug, Clone, Copy, PartialEq, Eq, Structural)]
pub enum TaskState {
    Ready,
    Running,
    Blocked,
    Terminated,
}

/// Kernel-stack metadata: the start address and the length in bytes.
#[derive(Debug, Clone, Copy, PartialEq, Eq, Structural)]
pub struct KernelStack {
    start: u64,
    len: usize,
}

impl KernelStack {
    pub closed spec fn spec_start(self) -> u64 {
        self.start
    }

    pub closed spec fn spec_len(self) -> usize {
        self.len
    }

    pub fn new(start: u64, len: usize) -> (s: Self)
        ensures
            s.spec_start() == start,
            s.spec_len() == len,
    {
        KernelStack { start, len }
    }

    #[verifier::when_used_as_spec(spec_start)]
    pub fn start(self) -> (r: u64)
        ensures
            r == self.spec_start(),
    {
        self.start
    }

    #[verifier::when_used_as_spec(spec_len)]
    pub fn len(self) -> (r: usize)
        ensures
            r == self.spec_len(),
    {
        self.len
    }

    pub fn is_empty(self) -> (r: bool)
        ensures
            r == (self.spec_len() == 0),
    {
        self.len == 0
    }
}

/// A task stored in the table. It is intentionally not `Copy`: execution
/// ownership stays attached to the stored task.
#[derive(Debug, Clone, PartialEq, Eq)]
pub struct Task {
    id: TaskId,
    state: TaskState,
    context: Context,
    kernel_stack: Option<KernelStack>,
}

impl Task {
    pub closed spec fn spec_id(&self) -> TaskId {
        self.id
    }

    pub closed spec fn spec_state(&self) -> TaskState {
        self.state
    }

    pub closed spec fn spec_context(&self) -> Context {
        self.context
    }

    pub closed spec fn spec_kernel_stack(&self) -> Option<KernelStack> {
        self.kernel_stack
    }

    #[verifier::when_used_as_spec(spec_id)]
    pub fn id(&self) -> (r: TaskId)
        ensures
            r == self.spec_id(),
    {
        self.id
    }

    #[verifier::when_used_as_spec(spec_state)]
    pub fn state(&self) -> (r: TaskState)
        ensures
            r == self.spec_state(),
    {
        self.state
    }

    #[verifier::when_used_as_spec(spec_context)]
    pub fn context(&self) -> (r: Context)
        ensures
            r == self.spec_context(),
    {
        self.context
    }

    #[verifier::when_used_as_spec(spec_kernel_stack)]
    pub fn kernel_stack(&self) -> (r: Option<KernelStack>)
        ensures
            r == self.spec_kernel_stack(),
    {
        self.kernel_stack
    }
}

/// Errors reported by the task table.
#[derive(Debug, Clone, Copy, PartialEq, Eq, Structural)]
pub enum TaskTableError {
    Capacity,
    NotFound,
    RunningTaskExists,
}

// ---------------------------------------------------------------------------
// The model: a task table is a sequence of optional tasks.
// ---------------------------------------------------------------------------

/// The slot holds the task with identifier `id`.
pub open spec fn holds_id(slot: Option<Task>, id: TaskId) -> bool {
    match slot {
        Some(t) => t.id() == id,
        None => false,
    }
}

/// The slot holds a task in state `state`.
pub open spec fn holds_state(slot: Option<Task>, state: TaskState) -> bool {
    match slot {
        Some(t) => t.state() == state,
        None => false,
    }
}

/// Identifier of the task in an occupied slot.
pub open spec fn slot_id(slot: Option<Task>) -> TaskId {
    match slot {
        Some(t) => t.id(),
        None => TaskId(0),
    }
}

/// Two slots hold tasks with the same identifier.
pub open spec fn same_id(a: Option<Task>, b: Option<Task>) -> bool {
    match (a, b) {
        (Some(x), Some(y)) => x.id() == y.id(),
        _ => false,
    }
}

/// No identifier occurs in two slots.
pub open spec fn ids_unique(slots: Seq<Option<Task>>) -> bool {
    forall|i: int, j: int|
        0 <= i < slots.len() && 0 <= j < slots.len() && i != j ==> !same_id(
            #[trigger] slots[i],
            #[trigger] slots[j],
        )
}

/// Every stored identifier is below `issued`.
pub open spec fn ids_below(slots: Seq<Option<Task>>, issued: u64) -> bool {
    forall|i: int|
        0 <= i < slots.len() && (#[trigger] slots[i]) is Some ==> slot_id(slots[i]).0 < issued
}

/// At most one task is running.
pub open spec fn at_most_one_running(slots: Seq<Option<Task>>) -> bool {
    forall|i: int, j: int|
        0 <= i < slots.len() && 0 <= j < slots.len() && i != j ==> !(holds_state(
            #[trigger] slots[i],
            TaskState::Running,
        ) && holds_state(#[trigger] slots[j], TaskState::Running))
}

/// First slot at or after `i` that holds `id`.
pub open spec fn find_from(slots: Seq<Option<Task>>, id: TaskId, i: int) -> Option<int>
    decreases slots.len() - i,
{
    if i < 0 || i >= slots.len() {
        None
    } else if holds_id(slots[i], id) {
        Some(i)
    } else {
        find_from(slots, id, i + 1)
    }
}

/// Slot holding the task `id`, if any.
pub open spec fn find_task(slots: Seq<Option<Task>>, id: TaskId) -> Option<int> {
    find_from(slots, id, 0)
}

/// First empty slot at or after `i`.
pub open spec fn free_from(slots: Seq<Option<Task>>, i: int) -> Option<int>
    decreases slots.len() - i,
{
    if i < 0 || i >= slots.len() {
        None
    } else if slots[i] is None {
        Some(i)
    } else {
        free_from(slots, i + 1)
    }
}

/// First empty slot, if any.
pub open spec fn first_free(slots: Seq<Option<Task>>) -> Option<int> {
    free_from(slots, 0)
}

/// Identifier of the first running task at or after `i`.
pub open spec fn running_from(slots: Seq<Option<Task>>, i: int) -> Option<TaskId>
    decreases slots.len() - i,
{
    if i < 0 || i >= slots.len() {
        None
    } else if holds_state(slots[i], TaskState::Running) {
        Some(slot_id(slots[i]))
    } else {
        running_from(slots, i + 1)
    }
}

/// Identifier of the running task, if any.
pub open spec fn running_task_of(slots: Seq<Option<Task>>) -> Option<TaskId> {
    running_from(slots, 0)
}

/// Some task other than `id` is running.
pub open spec fn running_other_than(slots: Seq<Option<Task>>, id: TaskId) -> bool {
    exists|i: int|
        0 <= i < slots.len() && holds_state(#[trigger] slots[i], TaskState::Running) && slot_id(
            slots[i],
        ) != id
}

/// Number of occupied slots.
pub open spec fn count_tasks(slots: Seq<Option<Task>>) -> nat
    decreases slots.len(),
{
    if slots.len() == 0 {
        0
    } else {
        count_tasks(slots.drop_last()) + if slots.last() is Some {
            1nat
        } else {
            0nat
        }
    }
}

/// First ready task met when scanning `MAX_TASKS` slots cyclically from
/// `start`, beginning at the `offset`-th step.
pub open spec fn ready_from(slots: Seq<Option<Task>>, start: int, offset: int) -> Option<TaskId>
    decreases MAX_TASKS - offset,
{
    if offset < 0 || offset >= MAX_TASKS {
        None
    } else if holds_state(slots[(start + offset) % (MAX_TASKS as int)], TaskState::Ready) {
        Some(slot_id(slots[(start + offset) % (MAX_TASKS as int)]))
    } else {
        ready_from(slots, start, offset + 1)
    }
}

/// Where a round-robin scan begins: just after the slot of `current`, or at
/// the first slot when there is no current task or it is not in the table.
pub open spec fn scan_start(slots: Seq<Option<Task>>, current: Option<TaskId>) -> int {
    match current {
        Some(id) => match find_task(slots, id) {
            Some(k) => (k + 1) % (MAX_TASKS as int),
            None => 0,
        },
        None => 0,
    }
}

/// The first ready task in round-robin order after `current`.
pub open spec fn next_ready_of(slots: Seq<Option<Task>>, current: Option<TaskId>) -> Option<
    TaskId,
> {
    ready_from(slots, scan_start(slots, current), 0)
}

/// `b` is the task `a` with its state replaced by `state`.
pub open spec fn restated(a: Option<Task>, b: Option<Task>, state: TaskState) -> bool {
    match (a, b) {
        (Some(x), Some(y)) => {
            &&& y.id() == x.id()
            &&& y.context() == x.context()
            &&& y.kernel_stack() == x.kernel_stack()
            &&& y.state() == state
        },
        _ => false,
    }
}

/// `b` is the task `a` with its execution context and kernel stack installed.
pub open spec fn installed(
    a: Option<Task>,
    b: Option<Task>,
    context: Context,
    stack: KernelStack,
) -> bool {
    match (a, b) {
        (Some(x), Some(y)) => {
            &&& y.id() == x.id()
            &&& y.state() == x.state()
            &&& y.context() == context
            &&& y.kernel_stack() == Some(stack)
        },
        _ => false,
    }
}

/// The slot holds a freshly created task `id`.
pub open spec fn fresh_task(slot: Option<Task>, id: TaskId) -> bool {
    match slot {
        Some(t) => {
            &&& t.id() == id
            &&& t.state() == TaskState::Ready
            &&& t.context() == Context { stack_pointer: 0 }
            &&& t.kernel_stack() is None
        },
        None => false,
    }
}

/// Slots `a` and `b` agree everywhere except at `k`.
pub open spec fn same_except(a: Seq<Option<Task>>, b: Seq<Option<Task>>, k: int) -> bool {
    &&& a.len() == b.len()
    &&& forall|j: int| 0 <= j < a.len() && j != k ==> #[trigger] b[j] == a[j]
}

// ---------------------------------------------------------------------------
// Facts about the model.
// ---------------------------------------------------------------------------

proof fn lemma_find_from(slots: Seq<Option<Task>>, id: TaskId, i: int)
    requires
        0 <= i,
    ensures
        match find_from(slots, id, i) {
            Some(k) => i <= k < slots.len() && holds_id(slots[k], id),
            None => forall|j: int| i <= j < slots.len() ==> !holds_id(#[trigger] slots[j], id),
        },
    decreases slots.len() - i,
{
    if i < slots.len() {
        lemma_find_from(slots, id, i + 1);
    }
}

/// The slot of a stored identifier is found, and a found slot holds it.
pub proof fn lemma_find_task(slots: Seq<Option<Task>>, id: TaskId)
    requires
        ids_unique(slots),
    ensures
        match find_task(slots, id) {
            Some(k) => 0 <= k < slots.len() && holds_id(slots[k], id) && forall|j: int|
                0 <= j < slots.len() && holds_id(#[trigger] slots[j], id) ==> j == k,
            None => forall|j: int| 0 <= j < slots.len() ==> !holds_id(#[trigger] slots[j], id),
        },
{
    lemma_find_from(slots, id, 0);
    if let Some(k) = find_task(slots, id) {
        assert forall|j: int| 0 <= j < slots.len() && holds_id(#[trigger] slots[j], id) implies j
            == k by {
            if j != k {
                assert(same_id(slots[j], slots[k]));
            }
        }
    }
}

proof fn lemma_free_from(slots: Seq<Option<Task>>, i: int)
    requires
        0 <= i,
    ensures
        match free_from(slots, i) {
            Some(k) => i <= k < slots.len() && slots[k] is None,
            None => forall|j: int| i <= j < slots.len() ==> (#[trigger] slots[j]) is Some,
        },
    decreases slots.len() - i,
{
    if i < slots.len() {
        lemma_free_from(slots, i + 1);
    }
}

proof fn lemma_running_from(slots: Seq<Option<Task>>, i: int)
    requires
        0 <= i,
    ensures
        match running_from(slots, i) {
            Some(id) => exists|k: int|
                i <= k < slots.len() && holds_state(#[trigger] slots[k], TaskState::Running)
                    && slot_id(slots[k]) == id,
            None => forall|j: int|
                i <= j < slots.len() ==> !holds_state(#[trigger] slots[j], TaskState::Running),
        },
    decreases slots.len() - i,
{
    if i < slots.len() {
        lemma_running_from(slots, i + 1);
    }
}

/// The running task, when there is one, is stored in the table and its slot
/// is the one `find_task` reports.
pub proof fn lemma_running_task(slots: Seq<Option<Task>>)
    requires
        ids_unique(slots),
    ensures
        match running_task_of(slots) {
            Some(id) => match find_task(slots, id) {
                Some(k) => holds_state(slots[k], TaskState::Running),
                None => false,
            },
            None => forall|j: int|
                0 <= j < slots.len() ==> !holds_state(#[trigger] slots[j], TaskState::Running),
        },
{
    lemma_running_from(slots, 0);
    if let Some(id) = running_task_of(slots) {
        let k = choose|k: int|
            0 <= k < slots.len() && holds_state(#[trigger] slots[k], TaskState::Running)
                && slot_id(slots[k]) == id;
        lemma_find_task(slots, id);
        assert(holds_id(slots[k], id));
    }
}

proof fn lemma_count_bound(slots: Seq<Option<Task>>)
    ensures
        count_tasks(slots) <= slots.len(),
    decreases slots.len(),
{
    if slots.len() > 0 {
        lemma_count_bound(slots.drop_last());
    }
}

// ---------------------------------------------------------------------------
// The table.
// ---------------------------------------------------------------------------

/// Fixed-capacity table of tasks with monotonically issued identifiers.
pub struct TaskTable {
    entries: [Option<Task>; MAX_TASKS],
    next_id: u64,
}

impl TaskTable {
    /// The slots of the table.
    pub closed spec fn slots(&self) -> Seq<Option<Task>> {
        self.entries@
    }

    /// The identifier that the next successful `create` issues.
    pub closed spec fn issued(&self) -> u64 {
        self.next_id
    }

    /// The table's invariant: it has `MAX_TASKS` slots, identifiers are
    /// unique and below the next one to be issued, and at most one task runs.
    pub open spec fn wf(&self) -> bool {
        &&& self.slots().len() == MAX_TASKS
        &&& ids_unique(self.slots())
        &&& ids_below(self.slots(), self.issued())
        &&& at_most_one_running(self.slots())
    }

    /// An empty table.
    pub fn new() -> (t: Self)
        ensures
            t.wf(),
            t.slots() == Seq::new(MAX_TASKS as nat, |i: int| None::<Task>),
            t.issued() == 0,
    {
        let t = TaskTable {
            entries: [
                None,
                None,
                None,
                None,
                None,
                None,
                None,
                None,
                None,
                None,
                None,
                None,
                None,
                None,
                None,
                None,
            ],
            next_id: 0,
        };
        assert(t.slots() =~= Seq::new(MAX_TASKS as nat, |i: int| None::<Task>));
        t
    }

    fn first_free_index(&self) -> (r: Option<usize>)
        requires
            self.wf(),
        ensures
            match r {
                Some(k) => first_free(self.slots()) == Some(k as int),
                None => first_free(self.slots()) is None,
            },
    {
        let mut i: usize = 0;
        while i < MAX_TASKS
            invariant
                i <= MAX_TASKS,
                self.wf(),
                first_free(self.slots()) == free_from(self.slots(), i as int),
            decreases MAX_TASKS - i,
        {
            if self.entries[i].is_none() {
                return Some(i);
            }
            i = i + 1;
        }
        None
    }

    fn find_index(&self, id: TaskId) -> (r: Option<usize>)
        requires
            self.wf(),
        ensures
            match r {
                Some(k) => k < MAX_TASKS && find_task(self.slots(), id) == Some(k as int),
                None => find_task(self.slots(), id) is None,
            },
    {
        let mut i: usize = 0;
        while i < MAX_TASKS
            invariant
                i <= MAX_TASKS,
                self.wf(),
                find_task(self.slots(), id) == find_from(self.slots(), id, i as int),
            decreases MAX_TASKS - i,
        {
            match &self.entries[i] {
                Some(task) => {
                    if task.id == id {
                        return Some(i);
                    }
                },
                None => {},
            }
            i = i + 1;
        }
        None
    }

    /// Creates a ready task in the first free slot and returns its identifier.
    ///
    /// Fails with `Capacity` when every slot is taken or the identifier space
    /// is exhausted; the table is then unchanged.
    pub fn create(&mut self) -> (r: Result<TaskId, TaskTableError>)
        requires
            old(self).wf(),
        ensures
            final(self).wf(),
            create_outcome(*old(self), *final(self), r),
    {
        let slot = match self.first_free_index() {
            Some(k) => k,
            None => return Err(TaskTableError::Capacity),
        };
        let id = TaskId(self.next_id);
        let next = match self.next_id.checked_add(1) {
            Some(n) => n,
            None => return Err(TaskTableError::Capacity),
        };
        proof {
            lemma_free_from(self.slots(), 0);
        }
        let ghost before = self.slots();
        self.next_id = next;
        self.entries[slot] = Some(
            Task { id, state: TaskState::Ready, context: Context::empty(), kernel_stack: None },
        );
        proof {
            let after = self.slots();
            assert(after == before.update(slot as int, after[slot as int]));
            assert forall|i: int, j: int|
                0 <= i < after.len() && 0 <= j < after.len() && i != j implies !same_id(
                #[trigger] after[i],
                #[trigger] after[j],
            ) by {
                if i == slot as int {
                    if after[j] is Some {
                        assert(before[j] == after[j]);
                        assert(ids_below(before, id.0));
                    }
                } else if j == slot as int {
                    if after[i] is Some {
                        assert(before[i] == after[i]);
                        assert(ids_below(before, id.0));
                    }
                } else {
                    assert(before[i] == after[i] && before[j] == after[j]);
                }
            }
            assert forall|i: int, j: int|
                0 <= i < after.len() && 0 <= j < after.len() && i != j implies !(holds_state(
                #[trigger] after[i],
                TaskState::Running,
            ) && holds_state(#[trigger] after[j], TaskState::Running)) by {
                if i != slot as int && j != slot as int {
                    assert(before[i] == after[i] && before[j] == after[j]);
                }
            }
            assert forall|i: int| 0 <= i < after.len() && (#[trigger] after[i]) is Some implies slot_id(
                after[i],
            ).0 < next by {
                if i != slot as int {
                    assert(before[i] == after[i]);
                }
            }
        }
        Ok(id)
    }

    /// The task with identifier `id`.
    pub fn get(&self, id: TaskId) -> (r: Result<&Task, TaskTableError>)
        requires
            self.wf(),
        ensures
            match r {
                Ok(t) => match find_task(self.slots(), id) {
                    Some(k) => self.slots()[k] == Some(*t),
                    None => false,
                },
                Err(e) => e == TaskTableError::NotFound && find_task(self.slots(), id) is None,
            },
    {
        proof {
            lemma_find_task(self.slots(), id);
        }
        match self.find_index(id) {
            Some(k) => match &self.entries[k] {
                Some(task) => Ok(task),
                None => Err(TaskTableError::NotFound),
            },
            None => Err(TaskTableError::NotFound),
        }
    }

    fn other_running(&self, id: TaskId) -> (r: bool)
        requires
            self.wf(),
        ensures
            r == running_other_than(self.slots(), id),
    {
        let mut i: usize = 0;
        while i < MAX_TASKS
            invariant
                i <= MAX_TASKS,
                self.wf(),
                forall|j: int|
                    0 <= j < i ==> !(holds_state(#[trigger] self.slots()[j], TaskState::Running)
                        && slot_id(self.slots()[j]) != id),
            decreases MAX_TASKS - i,
        {
            match &self.entries[i] {
                Some(task) => {
                    if task.id != id && task.state == TaskState::Running {
                        assert(holds_state(self.slots()[i as int], TaskState::Running));
                        return true;
                    }
                },
                None => {},
            }
            i = i + 1;
        }
        false
    }

    /// Sets the state of task `id`.
    ///
    /// Making a task `Running` while another task runs is refused with
    /// `RunningTaskExists` (checked first); an unknown `id` gives `NotFound`.
    /// On an error the table is unchanged.
    pub fn set_state(&mut self, id: TaskId, state: TaskState) -> (r: Result<(), TaskTableError>)
        requires
            old(self).wf(),
        ensures
            final(self).wf(),
            set_state_outcome(*old(self), *final(self), id, state, r),
    {
        if state == TaskState::Running && self.other_running(id) {
            return Err(TaskTableError::RunningTaskExists);
        }
        proof {
            lemma_find_task(self.slots(), id);
        }
        let k = match self.find_index(id) {
            Some(k) => k,
            None => return Err(TaskTableError::NotFound),
        };
        let (task_id, context, kernel_stack) = match &self.entries[k] {
            Some(task) => (task.id, task.context, task.kernel_stack),
            None => return Err(TaskTableError::NotFound),
        };
        let ghost before = self.slots();
        self.entries[k] = Some(Task { id: task_id, state, context, kernel_stack });
        proof {
            let after = self.slots();
            assert(after == before.update(k as int, after[k as int]));
            assert forall|i: int, j: int|
                0 <= i < after.len() && 0 <= j < after.len() && i != j implies !same_id(
                #[trigger] after[i],
                #[trigger] after[j],
            ) by {
                assert(same_id(after[i], after[j]) == same_id(before[i], before[j]));
            }
            assert forall|i: int, j: int|
                0 <= i < after.len() && 0 <= j < after.len() && i != j implies !(holds_state(
                #[trigger] after[i],
                TaskState::Running,
            ) && holds_state(#[trigger] after[j], TaskState::Running)) by {
                if i == k as int && state == TaskState::Running {
                    if holds_state(after[j], TaskState::Running) {
                        assert(before[j] == after[j]);
                        assert(slot_id(before[j]) != id);
                    }
                } else if j == k as int && state == TaskState::Running {
                    if holds_state(after[i], TaskState::Running) {
                        assert(before[i] == after[i]);
                        assert(slot_id(before[i]) != id);
                    }
                } else if i != k as int && j != k as int {
                    assert(before[i] == after[i] && before[j] == after[j]);
                }
            }
            assert forall|i: int| 0 <= i < after.len() && (#[trigger] after[i]) is Some implies slot_id(
                after[i],
            ).0 < self.next_id by {
                assert(before[i] is Some);
            }
        }
        Ok(())
    }

    /// Installs a prepared execution context and its kernel stack in task `id`.
    pub fn install_execution(&mut self, id: TaskId, context: Context, stack: KernelStack) -> (r:
        Result<(), TaskTableError>)
        requires
            old(self).wf(),
        ensures
            final(self).wf(),
            final(self).issued() == old(self).issued(),
            match r {
                Ok(()) => match find_task(old(self).slots(), id) {
                    Some(k) => {
                        &&& installed(old(self).slots()[k], final(self).slots()[k], context, stack)
                        &&& same_except(old(self).slots(), final(self).slots(), k)
                    },
                    None => false,
                },
                Err(e) => {
                    &&& e == TaskTableError::NotFound
                    &&& find_task(old(self).slots(), id) is None
                    &&& final(self).slots() == old(self).slots()
                },
            },
    {
        proof {
            lemma_find_task(self.slots(), id);
        }
        let k = match self.find_index(id) {
            Some(k) => k,
            None => return Err(TaskTableError::NotFound),
        };
        let (task_id, state) = match &self.entries[k] {
            Some(task) => (task.id, task.state),
            None => return Err(TaskTableError::NotFound),
        };
        let ghost before = self.slots();
        self.entries[k] = Some(Task { id: task_id, state, context, kernel_stack: Some(stack) });
        proof {
            let after = self.slots();
            assert(after == before.update(k as int, after[k as int]));
            assert forall|i: int, j: int|
                0 <= i < after.len() && 0 <= j < after.len() && i != j implies !same_id(
                #[trigger] after[i],
                #[trigger] after[j],
            ) by {
                assert(same_id(after[i], after[j]) == same_id(before[i], before[j]));
            }
            assert forall|i: int, j: int|
                0 <= i < after.len() && 0 <= j < after.len() && i != j implies !(holds_state(
                #[trigger] after[i],
                TaskState::Running,
            ) && holds_state(#[trigger] after[j], TaskState::Running)) by {
                assert(holds_state(after[i], TaskState::Running) == holds_state(
                    before[i],
                    TaskState::Running,
                ));
                assert(holds_state(after[j], TaskState::Running) == holds_state(
                    before[j],
                    TaskState::Running,
                ));
            }
            assert forall|i: int| 0 <= i < after.len() && (#[trigger] after[i]) is Some implies slot_id(
                after[i],
            ).0 < self.next_id by {
                assert(before[i] is Some);
            }
        }
        Ok(())
    }

    /// Number of tasks in the table.
    pub fn len(&self) -> (n: usize)
        requires
            self.wf(),
        ensures
            n == count_tasks(self.slots()),
            n <= MAX_TASKS,
    {
        let mut n: usize = 0;
        let mut i: usize = 0;
        while i < MAX_TASKS
            invariant
                i <= MAX_TASKS,
                self.wf(),
                n <= i,
                n == count_tasks(self.slots().subrange(0, i as int)),
            decreases MAX_TASKS - i,
        {
            assert(self.slots().subrange(0, i as int) =~= self.slots().subrange(
                0,
                i as int + 1,
            ).drop_last());
            if self.entries[i].is_some() {
                n = n + 1;
            }
            i = i + 1;
        }
        assert(self.slots().subrange(0, MAX_TASKS as int) =~= self.slots());
        n
    }

    /// The table holds no task.
    pub fn is_empty(&self) -> (r: bool)
        requires
            self.wf(),
        ensures
            r == (count_tasks(self.slots()) == 0),
    {
        self.len() == 0
    }

    /// Identifier of the running task, if any.
    pub fn running_task(&self) -> (r: Option<TaskId>)
        requires
            self.wf(),
        ensures
            r == running_task_of(self.slots()),
    {
        let mut i: usize = 0;
        while i < MAX_TASKS
            invariant
                i <= MAX_TASKS,
                self.wf(),
                running_task_of(self.slots()) == running_from(self.slots(), i as int),
            decreases MAX_TASKS - i,
        {
            match &self.entries[i] {
                Some(task) => {
                    if task.state == TaskState::Running {
                        return Some(task.id);
                    }
                },
                None => {},
            }
            i = i + 1;
        }
        None
    }

    /// The first ready task in round-robin order after `current`: the scan
    /// starts just after the slot of `current` (or at the first slot when
    /// `current` is absent or unknown) and wraps around once.
    pub fn next_ready_after(&self, current: Option<TaskId>) -> (r: Option<TaskId>)
        requires
            self.wf(),
        ensures
            r == next_ready_of(self.slots(), current),
    {
        let start: usize = match current {
            Some(id) => match self.find_index(id) {
                Some(index) => (index + 1) % MAX_TASKS,
                None => 0,
            },
            None => 0,
        };
        assert(start as int == scan_start(self.slots(), current));
        let mut offset: usize = 0;
        while offset < MAX_TASKS
            invariant
                offset <= MAX_TASKS,
                start < MAX_TASKS,
                self.wf(),
                next_ready_of(self.slots(), current) == ready_from(
                    self.slots(),
                    start as int,
                    offset as int,
                ),
            decreases MAX_TASKS - offset,
        {
            let index = (start + offset) % MAX_TASKS;
            match &self.entries[index] {
                Some(task) => {
                    if task.state == TaskState::Ready {
                        return Some(task.id);
                    }
                },
                None => {},
            }
            offset = offset + 1;
        }
        None
    }

    /// Saved execution context of task `id`.
    pub fn context(&self, id: TaskId) -> (r: Result<Context, TaskTableError>)
        requires
            self.wf(),
        ensures
            match r {
                Ok(c) => match find_task(self.slots(), id) {
                    Some(k) => match self.slots()[k] {
                        Some(t) => c == t.context(),
                        None => false,
                    },
                    None => false,
                },
                Err(e) => e == TaskTableError::NotFound && find_task(self.slots(), id) is None,
            },
    {
        match self.get(id) {
            Ok(task) => Ok(task.context()),
            Err(e) => Err(e),
        }
    }
}

impl Default for TaskTable {
    /// An empty table.
    fn default() -> (t: Self)
        ensures
            t.wf(),
            t.slots() == Seq::new(MAX_TASKS as nat, |i: int| None::<Task>),
            t.issued() == 0,
    {
        Self::new()
    }
}

/// What `create` does: on success the first free slot receives a fresh ready
/// task carrying the next identifier, and the identifier counter advances;
/// on failure (no free slot, or identifiers exhausted) nothing changes.
pub open spec fn create_outcome(before: TaskTable, after: TaskTable, r: Result<TaskId, TaskTableError>) -> bool {
    &&& (r is Ok <==> (first_free(before.slots()) is Some && before.issued() < u64::MAX))
    &&& match r {
        Ok(id) => match first_free(before.slots()) {
            Some(k) => {
                &&& id == TaskId(before.issued())
                &&& after.issued() == before.issued() + 1
                &&& fresh_task(after.slots()[k], id)
                &&& same_except(before.slots(), after.slots(), k)
            },
            None => false,
        },
        Err(e) => {
            &&& e == TaskTableError::Capacity
            &&& after.slots() == before.slots()
            &&& after.issued() == before.issued()
        },
    }
}

/// What `set_state` does: making a task running while another one runs is
/// refused with `RunningTaskExists` (checked first), an unknown task gives
/// `NotFound`, and otherwise only the state of the task changes. On an error
/// nothing changes.
pub open spec fn set_state_outcome(
    before: TaskTable,
    after: TaskTable,
    id: TaskId,
    state: TaskState,
    r: Result<(), TaskTableError>,
) -> bool {
    &&& after.issued() == before.issued()
    &&& match r {
        Ok(()) => match find_task(before.slots(), id) {
            Some(k) => {
                &&& !(state == TaskState::Running && running_other_than(before.slots(), id))
                &&& restated(before.slots()[k], after.slots()[k], state)
                &&& same_except(before.slots(), after.slots(), k)
            },
            None => false,
        },
        Err(e) => {
            &&& after.slots() == before.slots()
            &&& (e == TaskTableError::RunningTaskExists <==> (state == TaskState::Running
                && running_other_than(before.slots(), id)))
            &&& (e == TaskTableError::NotFound <==> (!(state == TaskState::Running
                && running_other_than(before.slots(), id)) && find_task(before.slots(), id) is None))
            &&& e != TaskTableError::Capacity
        },
    }
}

proof fn lemma_count_full(slots: Seq<Option<Task>>)
    ensures
        count_tasks(slots) == slots.len() <==> forall|i: int|
            0 <= i < slots.len() ==> (#[trigger] slots[i]) is Some,
    decreases slots.len(),
{
    if slots.len() > 0 {
        let rest = slots.drop_last();
        lemma_count_full(rest);
        lemma_count_bound(rest);
        if forall|i: int| 0 <= i < slots.len() ==> (#[trigger] slots[i]) is Some {
            assert forall|i: int| 0 <= i < rest.len() implies (#[trigger] rest[i]) is Some by {
                assert(rest[i] == slots[i]);
            }
        }
        if count_tasks(slots) == slots.len() {
            assert forall|i: int| 0 <= i < slots.len() implies (#[trigger] slots[i]) is Some by {
                if i < rest.len() {
                    assert(rest[i] == slots[i]);
                }
            }
        }
    }
}

/// A task just created is found in the table under its identifier, ready,
/// with an empty context and no kernel stack.
pub proof fn lemma_created_task_is_found(before: TaskTable, after: TaskTable, id: TaskId)
    requires
        before.wf(),
        after.wf(),
        create_outcome(before, after, Ok(id)),
    ensures
        match find_task(after.slots(), id) {
            Some(k) => fresh_task(after.slots()[k], id),
            None => false,
        },
{
    lemma_free_from(before.slots(), 0);
    let k = first_free(before.slots())->0;
    lemma_find_task(after.slots(), id);
    assert(holds_id(after.slots()[k], id));
}

/// Identifiers are issued in increasing order, and a new identifier differs
/// from every identifier already in the table.
pub proof fn lemma_ids_increase(
    t0: TaskTable,
    t1: TaskTable,
    t2: TaskTable,
    first: TaskId,
    second: TaskId,
)
    requires
        t0.wf(),
        create_outcome(t0, t1, Ok(first)),
        create_outcome(t1, t2, Ok(second)),
    ensures
        first.0 < second.0,
        forall|i: int| 0 <= i < t0.slots().len() ==> !holds_id(#[trigger] t0.slots()[i], first),
{
    assert forall|i: int| 0 <= i < t0.slots().len() implies !holds_id(
        #[trigger] t0.slots()[i],
        first,
    ) by {
        if t0.slots()[i] is Some {
            assert(slot_id(t0.slots()[i]).0 < t0.issued());
        }
    }
}

/// A full table refuses to create a task, and a table with a free slot and
/// identifiers left accepts.
pub proof fn lemma_create_succeeds_iff_room(
    before: TaskTable,
    after: TaskTable,
    r: Result<TaskId, TaskTableError>,
)
    requires
        before.wf(),
        create_outcome(before, after, r),
    ensures
        count_tasks(before.slots()) == MAX_TASKS ==> r == Err::<TaskId, TaskTableError>(
            TaskTableError::Capacity,
        ),
        count_tasks(before.slots()) < MAX_TASKS && before.issued() < u64::MAX ==> r is Ok,
{
    lemma_count_full(before.slots());
    lemma_count_bound(before.slots());
    lemma_free_from(before.slots(), 0);
}

/// After a successful state change the task is found with the new state, and
/// every other slot is unchanged.
pub proof fn lemma_state_change_is_observed(
    before: TaskTable,
    after: TaskTable,
    id: TaskId,
    state: TaskState,
)
    requires
        before.wf(),
        after.wf(),
        set_state_outcome(before, after, id, state, Ok(())),
    ensures
        match find_task(after.slots(), id) {
            Some(k) => holds_state(after.slots()[k], state) && forall|j: int|
                0 <= j < after.slots().len() && j != k ==> #[trigger] after.slots()[j]
                    == before.slots()[j],
            None => false,
        },
{
    let k = find_task(before.slots(), id)->0;
    lemma_find_task(before.slots(), id);
    lemma_find_task(after.slots(), id);
    assert(holds_id(after.slots()[k], id));
}

/// Only one task runs: asking for a second running task is refused while
/// another task runs, whatever the table holds.
pub proof fn lemma_second_running_task_refused(
    before: TaskTable,
    after: TaskTable,
    id: TaskId,
    r: Result<(), TaskTableError>,
)
    requires
        before.wf(),
        set_state_outcome(before, after, id, TaskState::Running, r),
        running_other_than(before.slots(), id),
    ensures
        r == Err::<(), TaskTableError>(TaskTableError::RunningTaskExists),
        after.slots() == before.slots(),
{
}

proof fn lemma_count_same_except(a: Seq<Option<Task>>, b: Seq<Option<Task>>, k: int)
    requires
        same_except(a, b, k),
        0 <= k < a.len(),
    ensures
        count_tasks(b) + (if a[k] is Some {
            1int
        } else {
            0int
        }) == count_tasks(a) + (if b[k] is Some {
            1int
        } else {
            0int
        }),
    decreases a.len(),
{
    let n = a.len() - 1;
    if k < n {
        assert(same_except(a.drop_last(), b.drop_last(), k));
        lemma_count_same_except(a.drop_last(), b.drop_last(), k);
        assert(a.last() == b.last());
    } else {
        assert(a.drop_last() =~= b.drop_last());
    }
}

/// Creating a task adds exactly one task to the table; a refused creation
/// adds none.
pub proof fn lemma_task_count_changes(
    before: TaskTable,
    after: TaskTable,
    created: Result<TaskId, TaskTableError>,
)
    requires
        before.wf(),
        create_outcome(before, after, created),
    ensures
        count_tasks(after.slots()) == count_tasks(before.slots()) + if created is Ok {
            1int
        } else {
            0int
        },
{
    if created is Ok {
        lemma_free_from(before.slots(), 0);
        let k = first_free(before.slots())->0;
        lemma_count_same_except(before.slots(), after.slots(), k);
    }
}

/// A state change keeps the number of tasks.
pub proof fn lemma_state_change_keeps_count(
    before: TaskTable,
    after: TaskTable,
    id: TaskId,
    state: TaskState,
    r: Result<(), TaskTableError>,
)
    requires
        before.wf(),
        set_state_outcome(before, after, id, state, r),
    ensures
        count_tasks(after.slots()) == count_tasks(before.slots()),
{
    if r is Ok {
        lemma_find_task(before.slots(), id);
        let k = find_task(before.slots(), id)->0;
        lemma_count_same_except(before.slots(), after.slots(), k);
    }
}

} // verus!
