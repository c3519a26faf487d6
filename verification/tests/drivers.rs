use tokio_block_on_deadlock::budget::{ExecutionContext, Owner, Suspension};
use tokio_block_on_deadlock::driver::{
    run_to_completion_nested, run_to_completion_on_new_thread, DriveOutcome,
};
use tokio_block_on_deadlock::future::ScenarioFuture;
use tokio_block_on_deadlock::resource::{LockState, SharedResource};
use tokio_block_on_deadlock::script::{Progress, Stage, Strategy};

#[test]
fn nested_driver_stalls_when_the_ambient_budget_runs_out() {
    let mut future = ScenarioFuture::new(10_000);
    let mut ambient = ExecutionContext::new(Owner::WorkerPool, 128);
    let mut res = SharedResource::new();
    let mut log = Vec::new();
    let outcome = run_to_completion_nested(&mut future, &mut ambient, &mut res, &mut log);
    assert_eq!(
        outcome,
        DriveOutcome::Stalled { reason: Suspension::BudgetExhausted, polls: 1 }
    );
    assert!(!outcome.is_completed());
    assert_eq!(outcome.polls(), 1);
    assert_eq!(future.script().stage(), Stage::Consume);
    assert_eq!(future.script().consumed(), 128);
    assert_eq!(ambient.remaining(), 0);
    assert_eq!(ambient.capacity(), 128);
    assert_eq!(res.state(), LockState::Unlocked);
    assert_eq!(res.issued(), 1);
    assert_eq!(log.first(), Some(&Progress::DriverEntered(Strategy::Nested)));
    assert_eq!(log.last(), Some(&Progress::StillConsuming(120)));
    assert!(!log.contains(&Progress::NestedExited));
}

#[test]
fn nested_driver_completes_when_the_ambient_budget_covers_the_units() {
    let mut future = ScenarioFuture::new(128);
    let mut ambient = ExecutionContext::new(Owner::WorkerPool, 128);
    let mut res = SharedResource::new();
    let mut log = Vec::new();
    let outcome = run_to_completion_nested(&mut future, &mut ambient, &mut res, &mut log);
    assert_eq!(outcome, DriveOutcome::Completed { polls: 1 });
    assert!(future.is_finished());
    assert_eq!(ambient.remaining(), 0);
    assert_eq!(log.last(), Some(&Progress::NestedExited));
}

#[test]
fn nested_driver_charges_what_is_left_of_a_budget_in_use() {
    let mut future = ScenarioFuture::new(100);
    let mut ambient = ExecutionContext::new(Owner::WorkerPool, 128);
    for _ in 0..60 {
        ambient.consume_unit();
    }
    let mut res = SharedResource::new();
    let mut log = Vec::new();
    let outcome = run_to_completion_nested(&mut future, &mut ambient, &mut res, &mut log);
    assert_eq!(
        outcome,
        DriveOutcome::Stalled { reason: Suspension::BudgetExhausted, polls: 1 }
    );
    assert_eq!(future.script().consumed(), 68);
    assert_eq!(ambient.remaining(), 0);
}

#[test]
fn nested_driver_stalls_on_a_writer() {
    let mut future = ScenarioFuture::new(4);
    let mut ambient = ExecutionContext::new(Owner::WorkerPool, 128);
    let mut res = SharedResource::new();
    res.acquire_write().unwrap();
    let mut log = Vec::new();
    let outcome = run_to_completion_nested(&mut future, &mut ambient, &mut res, &mut log);
    assert_eq!(outcome, DriveOutcome::Stalled { reason: Suspension::Contended, polls: 1 });
    assert_eq!(future.script().stage(), Stage::AcquireFirst);
    assert_eq!(ambient.remaining(), 128);
}

#[test]
fn dedicated_driver_completes_the_scenario_in_seventy_nine_polls() {
    let mut future = ScenarioFuture::new(10_000);
    let mut res = SharedResource::new();
    let mut log = Vec::new();
    let outcome = run_to_completion_on_new_thread(&mut future, 128, &mut res, &mut log);
    assert_eq!(outcome, DriveOutcome::Completed { polls: 79 });
    assert!(outcome.is_completed());
    assert_eq!(outcome.polls(), 79);
    assert!(future.is_finished());
    assert_eq!(future.script().consumed(), 10_000);
    assert_eq!(res.state(), LockState::Unlocked);
    assert_eq!(res.issued(), 2);
    assert_eq!(log.first(), Some(&Progress::DriverEntered(Strategy::Dedicated)));
    assert_eq!(log.last(), Some(&Progress::AcquiredSecond));
    assert!(!log.contains(&Progress::NestedExited));
    assert_eq!(log.len(), 1 + 4 + 500 + 3);
}

#[test]
fn dedicated_driver_needs_one_poll_per_budget() {
    let cases: [(u64, u64, u64); 8] = [
        (0, 128, 1),
        (1, 128, 1),
        (128, 128, 1),
        (129, 128, 2),
        (256, 128, 2),
        (257, 128, 3),
        (10, 1, 10),
        (10, 3, 4),
    ];
    for (units, capacity, polls) in cases {
        let mut future = ScenarioFuture::new(units);
        let mut res = SharedResource::new();
        let mut log = Vec::new();
        let outcome = run_to_completion_on_new_thread(&mut future, capacity, &mut res, &mut log);
        assert_eq!(outcome, DriveOutcome::Completed { polls });
        assert_eq!(future.script().consumed(), units);
    }
}

#[test]
fn dedicated_driver_does_not_touch_the_context_of_its_caller() {
    let mut ambient = ExecutionContext::new(Owner::WorkerPool, 128);
    for _ in 0..100 {
        ambient.consume_unit();
    }
    let mut future = ScenarioFuture::new(10_000);
    let mut res = SharedResource::new();
    let mut log = Vec::new();
    let outcome = run_to_completion_on_new_thread(&mut future, 128, &mut res, &mut log);
    assert!(outcome.is_completed());
    assert_eq!(ambient.remaining(), 28);
}

#[test]
fn dedicated_driver_stalls_when_budgets_are_refilled_to_nothing() {
    let mut future = ScenarioFuture::new(5);
    let mut res = SharedResource::new();
    let mut log = Vec::new();
    let outcome = run_to_completion_on_new_thread(&mut future, 0, &mut res, &mut log);
    assert_eq!(
        outcome,
        DriveOutcome::Stalled { reason: Suspension::BudgetExhausted, polls: 1 }
    );
    assert_eq!(future.script().stage(), Stage::Consume);
    assert_eq!(future.script().consumed(), 0);
    assert_eq!(res.issued(), 1);
}

#[test]
fn dedicated_driver_without_units_needs_no_budget() {
    let mut future = ScenarioFuture::new(0);
    let mut res = SharedResource::new();
    let mut log = Vec::new();
    let outcome = run_to_completion_on_new_thread(&mut future, 0, &mut res, &mut log);
    assert_eq!(outcome, DriveOutcome::Completed { polls: 1 });
}

#[test]
fn dedicated_driver_stalls_on_a_writer_at_the_first_acquisition() {
    let mut future = ScenarioFuture::new(300);
    let mut res = SharedResource::new();
    res.acquire_write().unwrap();
    let mut log = Vec::new();
    let outcome = run_to_completion_on_new_thread(&mut future, 128, &mut res, &mut log);
    assert_eq!(outcome, DriveOutcome::Stalled { reason: Suspension::Contended, polls: 1 });
    assert_eq!(future.script().stage(), Stage::AcquireFirst);
    assert_eq!(res.state(), LockState::Writer);
}

#[test]
fn dedicated_driver_stalls_on_a_writer_at_the_second_acquisition() {
    let mut future = ScenarioFuture::new(300);
    let mut ctx = ExecutionContext::new(Owner::DedicatedThread, 128);
    let mut res = SharedResource::new();
    let mut log = Vec::new();
    future.poll(&mut ctx, &mut res, &mut log);
    assert_eq!(future.script().consumed(), 128);
    res.acquire_write().unwrap();
    let outcome = run_to_completion_on_new_thread(&mut future, 128, &mut res, &mut log);
    assert_eq!(outcome, DriveOutcome::Stalled { reason: Suspension::Contended, polls: 2 });
    assert_eq!(future.script().stage(), Stage::AcquireSecond);
    assert_eq!(future.script().consumed(), 300);
}

fn drive_alone(units: u64, capacity: u64, polls: usize) -> (Stage, u64, u64) {
    let mut future = ScenarioFuture::new(units);
    let mut ctx = ExecutionContext::new(Owner::DedicatedThread, capacity);
    let mut res = SharedResource::new();
    let mut log = Vec::new();
    for _ in 0..polls {
        ctx.resume(Owner::DedicatedThread);
        future.poll(&mut ctx, &mut res, &mut log);
    }
    (future.script().stage(), future.script().consumed(), ctx.remaining())
}

#[test]
fn two_dedicated_threads_do_not_see_each_other() {
    let schedules: [&[bool]; 4] = [
        &[true, false, true, false, true, false],
        &[true, true, true, false, false, false],
        &[false, false, true, false, true, true, true],
        &[false, true, true, true, true, true, false, false],
    ];
    for schedule in schedules {
        let mut a = ScenarioFuture::new(100);
        let mut b = ScenarioFuture::new(7);
        let mut ctx_a = ExecutionContext::new(Owner::DedicatedThread, 30);
        let mut ctx_b = ExecutionContext::new(Owner::DedicatedThread, 2);
        let mut res = SharedResource::new();
        let mut log = Vec::new();
        for first in schedule {
            if *first {
                ctx_a.resume(Owner::DedicatedThread);
                a.poll(&mut ctx_a, &mut res, &mut log);
            } else {
                ctx_b.resume(Owner::DedicatedThread);
                b.poll(&mut ctx_b, &mut res, &mut log);
            }
        }
        let turns_a = schedule.iter().filter(|first| **first).count();
        let turns_b = schedule.len() - turns_a;
        assert_eq!(
            (a.script().stage(), a.script().consumed(), ctx_a.remaining()),
            drive_alone(100, 30, turns_a)
        );
        assert_eq!(
            (b.script().stage(), b.script().consumed(), ctx_b.remaining()),
            drive_alone(7, 2, turns_b)
        );
        assert_eq!(res.state(), LockState::Unlocked);
    }
}
