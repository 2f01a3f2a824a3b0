use nastalli::kernel::scheduler::{ScheduleDecision, Scheduler, DEFAULT_QUANTUM};
use nastalli::arch::context::Context;
use nastalli::kernel::task::{KernelStack, TaskId, TaskState, TaskTable};

#[test]
fn rotates_ready_tasks_when_the_quantum_expires() {
    let mut tasks = TaskTable::new();
    let first = tasks.create().unwrap();
    let second = tasks.create().unwrap();
    tasks.set_state(first, TaskState::Running).unwrap();

    let mut scheduler = Scheduler::with_quantum(tasks, 2);

    assert_eq!(scheduler.on_tick(), ScheduleDecision::Continue(first));
    assert_eq!(scheduler.on_tick(), ScheduleDecision::Switch { from: first, to: second });
    assert_eq!(scheduler.task_state(first).unwrap(), TaskState::Ready);
    assert_eq!(scheduler.task_state(second).unwrap(), TaskState::Running);
}

#[test]
fn default_quantum_is_five_ticks() {
    let mut tasks = TaskTable::new();
    let first = tasks.create().unwrap();
    let second = tasks.create().unwrap();
    tasks.set_state(first, TaskState::Running).unwrap();
    let mut scheduler = Scheduler::new(tasks);
    assert_eq!(scheduler.quantum(), DEFAULT_QUANTUM);
    for _ in 0..4 {
        assert_eq!(scheduler.on_tick(), ScheduleDecision::Continue(first));
    }
    assert_eq!(scheduler.on_tick(), ScheduleDecision::Switch { from: first, to: second });
    for _ in 0..4 {
        assert_eq!(scheduler.on_tick(), ScheduleDecision::Continue(second));
    }
    assert_eq!(scheduler.on_tick(), ScheduleDecision::Switch { from: second, to: first });
}

#[test]
fn idle_without_a_running_task() {
    let mut tasks = TaskTable::new();
    tasks.create().unwrap();
    let mut scheduler = Scheduler::with_quantum(tasks, 1);
    assert_eq!(scheduler.on_tick(), ScheduleDecision::Idle);
    assert_eq!(scheduler.on_tick(), ScheduleDecision::Idle);
}

#[test]
fn a_lone_running_task_keeps_the_cpu() {
    let mut tasks = TaskTable::new();
    let only = tasks.create().unwrap();
    tasks.set_state(only, TaskState::Running).unwrap();
    let mut scheduler = Scheduler::with_quantum(tasks, 2);
    for _ in 0..6 {
        assert_eq!(scheduler.on_tick(), ScheduleDecision::Continue(only));
    }
    assert_eq!(scheduler.task_state(only), Ok(TaskState::Running));
}

#[test]
fn three_tasks_rotate_in_table_order_and_skip_blocked_ones() {
    let mut tasks = TaskTable::new();
    let a = tasks.create().unwrap();
    let b = tasks.create().unwrap();
    let c = tasks.create().unwrap();
    let d = tasks.create().unwrap();
    tasks.set_state(a, TaskState::Running).unwrap();
    tasks.set_state(c, TaskState::Blocked).unwrap();
    let mut scheduler = Scheduler::with_quantum(tasks, 1);
    assert_eq!(scheduler.on_tick(), ScheduleDecision::Switch { from: a, to: b });
    assert_eq!(scheduler.on_tick(), ScheduleDecision::Switch { from: b, to: d });
    assert_eq!(scheduler.on_tick(), ScheduleDecision::Switch { from: d, to: a });
    assert_eq!(scheduler.task_state(c), Ok(TaskState::Blocked));
    assert_eq!(scheduler.tasks().len(), 4);
}

#[test]
fn quantum_zero_rotates_on_every_tick() {
    let mut tasks = TaskTable::new();
    let a = tasks.create().unwrap();
    let b = tasks.create().unwrap();
    tasks.set_state(a, TaskState::Running).unwrap();
    let mut scheduler = Scheduler::with_quantum(tasks, 0);
    assert_eq!(scheduler.on_tick(), ScheduleDecision::Switch { from: a, to: b });
    assert_eq!(scheduler.on_tick(), ScheduleDecision::Switch { from: b, to: a });
}

#[test]
fn a_switch_resolves_to_the_two_saved_contexts() {
    let mut tasks = TaskTable::new();
    let a = tasks.create().unwrap();
    let b = tasks.create().unwrap();
    tasks.set_state(a, TaskState::Running).unwrap();
    tasks.install_execution(a, Context { stack_pointer: 0x1000 }, KernelStack::new(0, 4096)).unwrap();
    tasks.install_execution(b, Context { stack_pointer: 0x2000 }, KernelStack::new(0x8000, 4096)).unwrap();
    let mut scheduler = Scheduler::with_quantum(tasks, 1);
    let decision = scheduler.on_tick();
    assert_eq!(decision, ScheduleDecision::Switch { from: a, to: b });
    assert_eq!(
        scheduler.prepare_context_switch(decision),
        Some((Context { stack_pointer: 0x1000 }, Context { stack_pointer: 0x2000 }))
    );
    assert_eq!(scheduler.prepare_context_switch(ScheduleDecision::Continue(a)), None);
    assert_eq!(scheduler.prepare_context_switch(ScheduleDecision::Idle), None);
    assert_eq!(
        scheduler.prepare_context_switch(ScheduleDecision::Switch { from: a, to: TaskId(42) }),
        None
    );
}
