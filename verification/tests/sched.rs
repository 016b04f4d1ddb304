use kernel_core::sched::{on_timer_tick, Scheduler, Switch, TaskState};

fn scheduler() -> Scheduler {
    let mut s = Scheduler::new();
    s.init();
    s
}

#[test]
fn boot_task_runs_first() {
    let s = scheduler();
    let tasks = s.tasks();
    assert_eq!(tasks.len(), 1);
    assert_eq!(tasks[0].id, 0);
    assert_eq!(tasks[0].name, "boot");
    assert_eq!(tasks[0].state, TaskState::Running);
    let stats = s.stats(7);
    assert!(stats.initialized);
    assert_eq!(stats.running, 1);
    assert_eq!(stats.heartbeat, 7);
}

#[test]
fn round_robin_visits_every_ready_task() {
    let mut s = scheduler();
    assert_eq!(s.spawn("a"), Some(1));
    assert_eq!(s.spawn("b"), Some(2));
    assert_eq!(s.yield_now(0), Some(Switch { from: 0, to: 1 }));
    assert_eq!(s.yield_now(0), Some(Switch { from: 1, to: 2 }));
    assert_eq!(s.yield_now(0), Some(Switch { from: 2, to: 0 }));
    let stats = s.stats(0);
    assert_eq!(stats.context_switches, 3);
    assert_eq!(stats.running, 1);
    assert_eq!(stats.ready, 2);
}

#[test]
fn alone_the_current_task_keeps_running() {
    let mut s = scheduler();
    assert_eq!(s.yield_now(10), None);
    assert_eq!(s.tasks()[0].state, TaskState::Running);
    assert_eq!(s.stats(0).context_switches, 0);
}

#[test]
fn sleepers_wake_at_their_tick() {
    let mut s = scheduler();
    s.spawn("worker");
    // boot sleeps until tick 5, the worker runs
    assert_eq!(s.sleep(0, 5), Some(Switch { from: 0, to: 1 }));
    let tasks = s.tasks();
    assert_eq!(tasks[0].state, TaskState::Sleeping);
    assert_eq!(tasks[0].wake_tick, Some(5));
    // too early: nothing else to run
    assert_eq!(s.yield_now(4), None);
    // at tick 5 the boot task is woken and chosen
    assert_eq!(s.yield_now(5), Some(Switch { from: 1, to: 0 }));
}

#[test]
fn exit_hands_over_or_reports_no_successor() {
    let mut s = scheduler();
    assert_eq!(s.exit_current(0), None);
    s.spawn("t");
    assert_eq!(s.exit_current(0), Some(Switch { from: 0, to: 1 }));
    assert_eq!(s.tasks()[0].state, TaskState::Exited);
    assert_eq!(s.stats(0).exited, 1);
}

#[test]
fn reschedule_requests_every_quantum() {
    assert!(on_timer_tick(true, 5));
    assert!(on_timer_tick(true, 10));
    assert!(!on_timer_tick(true, 6));
    assert!(!on_timer_tick(false, 5));
}

#[test]
fn initial_frame_sits_below_the_stack_end() {
    let end = 0x10_0000u64;
    let (return_slot, rsp) = kernel_core::sched::initial_frame(end);
    assert_eq!(return_slot, end - 16);
    assert_eq!(rsp, end - 64);
    // six registers are popped before the return address is taken
    assert_eq!(rsp + 6 * 8, return_slot);
}
