use nastalli::arch::context::Context;
use nastalli::kernel::task::{KernelStack, TaskId, TaskState, TaskTable, TaskTableError, MAX_TASKS};

#[test]
fn creates_ready_tasks_with_monotonic_ids() {
    let mut table = TaskTable::new();
    let first = table.create().unwrap();
    let second = table.create().unwrap();

    assert_eq!(first.raw(), 0);
    assert_eq!(second.raw(), 1);
    assert_eq!(table.get(first).unwrap().state(), TaskState::Ready);
    assert_eq!(table.len(), 2);
}

#[test]
fn updates_state_without_scheduler_side_effects() {
    let mut table = TaskTable::new();
    let id = table.create().unwrap();

    table.set_state(id, TaskState::Running).unwrap();

    assert_eq!(table.get(id).unwrap().state(), TaskState::Running);
}

#[test]
fn rejects_a_second_running_task() {
    let mut table = TaskTable::new();
    let first = table.create().unwrap();
    let second = table.create().unwrap();

    table.set_state(first, TaskState::Running).unwrap();

    assert_eq!(
        table.set_state(second, TaskState::Running),
        Err(TaskTableError::RunningTaskExists)
    );
}

#[test]
fn reports_capacity_and_missing_tasks() {
    let mut table = TaskTable::new();
    for _ in 0..MAX_TASKS {
        table.create().unwrap();
    }

    assert_eq!(table.create(), Err(TaskTableError::Capacity));
    assert_eq!(table.get(TaskId(999)), Err(TaskTableError::NotFound));
}

#[test]
fn task_owns_execution_context_and_kernel_stack() {
    let mut table = TaskTable::new();
    let id = table.create().unwrap();

    assert_eq!(table.get(id).unwrap().context(), Context::empty());
    assert_eq!(table.get(id).unwrap().kernel_stack(), None);

    let context = Context { stack_pointer: 0x1234 };
    let stack = KernelStack::new(0x8000, 4096);
    table.install_execution(id, context, stack).unwrap();

    let task = table.get(id).unwrap();
    assert_eq!(task.context(), context);
    assert_eq!(task.kernel_stack(), Some(stack));
}

#[test]
fn kernel_stack_reports_its_extent() {
    let stack = KernelStack::new(0x8000, 4096);
    assert_eq!(stack.start(), 0x8000);
    assert_eq!(stack.len(), 4096);
    assert!(!stack.is_empty());
    assert!(KernelStack::new(0x8000, 0).is_empty());
}

#[test]
fn the_running_task_may_be_restated_running() {
    let mut table = TaskTable::new();
    let id = table.create().unwrap();
    table.set_state(id, TaskState::Running).unwrap();
    assert_eq!(table.set_state(id, TaskState::Running), Ok(()));
    assert_eq!(table.running_task(), Some(id));
}

#[test]
fn unknown_tasks_are_reported() {
    let mut table = TaskTable::new();
    assert!(table.is_empty());
    assert_eq!(table.set_state(TaskId(3), TaskState::Blocked), Err(TaskTableError::NotFound));
    assert_eq!(
        table.install_execution(TaskId(3), Context::empty(), KernelStack::new(0, 0)),
        Err(TaskTableError::NotFound)
    );
    assert_eq!(table.context(TaskId(3)), Err(TaskTableError::NotFound));
    assert_eq!(table.running_task(), None);
    assert_eq!(table.next_ready_after(None), None);
}

#[test]
fn a_created_task_is_found_ready_and_ids_keep_increasing() {
    let mut table = TaskTable::new();
    let first = table.create().unwrap();
    let second = table.create().unwrap();
    assert!(first.raw() < second.raw());
    let task = table.get(second).unwrap();
    assert_eq!(task.id(), second);
    assert_eq!(task.state(), TaskState::Ready);
    assert_eq!(task.context(), Context::empty());
}

#[test]
fn round_robin_scan_wraps_after_the_current_task() {
    let mut table = TaskTable::new();
    let a = table.create().unwrap();
    let b = table.create().unwrap();
    let c = table.create().unwrap();
    table.set_state(b, TaskState::Running).unwrap();
    table.set_state(c, TaskState::Blocked).unwrap();
    assert_eq!(table.next_ready_after(Some(b)), Some(a));
    assert_eq!(table.next_ready_after(Some(a)), Some(a));
    assert_eq!(table.next_ready_after(None), Some(a));
    assert_eq!(table.next_ready_after(Some(TaskId(77))), Some(a));
    table.set_state(a, TaskState::Terminated).unwrap();
    assert_eq!(table.next_ready_after(Some(b)), None);
}
