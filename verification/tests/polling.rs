use tokio_block_on_deadlock::budget::{ExecutionContext, Owner, Poll, Suspension};
use tokio_block_on_deadlock::future::ScenarioFuture;
use tokio_block_on_deadlock::resource::{LockState, SharedResource};
use tokio_block_on_deadlock::script::{Progress, Stage};

#[test]
fn poll_finishes_when_the_budget_covers_every_unit() {
    let mut future = ScenarioFuture::new(5);
    let mut ctx = ExecutionContext::new(Owner::WorkerPool, 8);
    let mut res = SharedResource::new();
    let mut log = Vec::new();
    assert_eq!(future.poll(&mut ctx, &mut res, &mut log), Poll::Ready);
    assert!(future.is_finished());
    assert_eq!(future.script().consumed(), 5);
    assert_eq!(ctx.remaining(), 3);
    assert_eq!(res.state(), LockState::Unlocked);
    assert_eq!(res.issued(), 2);
    assert_eq!(
        log,
        vec![
            Progress::FutureEntered,
            Progress::AcquiringFirst,
            Progress::AcquiredFirst,
            Progress::ConsumingBudget,
            Progress::StillConsuming(0),
            Progress::FinishedConsuming,
            Progress::AcquiringSecond,
            Progress::AcquiredSecond,
        ]
    );
}

#[test]
fn poll_finishes_when_the_budget_covers_the_units_exactly() {
    let mut future = ScenarioFuture::new(8);
    let mut ctx = ExecutionContext::new(Owner::WorkerPool, 8);
    let mut res = SharedResource::new();
    let mut log = Vec::new();
    assert_eq!(future.poll(&mut ctx, &mut res, &mut log), Poll::Ready);
    assert_eq!(ctx.remaining(), 0);
    assert_eq!(future.script().stage(), Stage::Finished);
}

#[test]
fn poll_yields_at_the_unit_that_finds_the_budget_empty() {
    let mut future = ScenarioFuture::new(50);
    let mut ctx = ExecutionContext::new(Owner::WorkerPool, 21);
    let mut res = SharedResource::new();
    let mut log = Vec::new();
    assert_eq!(
        future.poll(&mut ctx, &mut res, &mut log),
        Poll::Pending(Suspension::BudgetExhausted)
    );
    assert_eq!(future.script().stage(), Stage::Consume);
    assert_eq!(future.script().consumed(), 21);
    assert_eq!(ctx.remaining(), 0);
    assert_eq!(res.state(), LockState::Unlocked);
    assert_eq!(res.issued(), 1);
    assert_eq!(
        log,
        vec![
            Progress::FutureEntered,
            Progress::AcquiringFirst,
            Progress::AcquiredFirst,
            Progress::ConsumingBudget,
            Progress::StillConsuming(0),
            Progress::StillConsuming(20),
        ]
    );
}

#[test]
fn poll_without_a_resumption_changes_nothing_more() {
    let mut future = ScenarioFuture::new(50);
    let mut ctx = ExecutionContext::new(Owner::WorkerPool, 21);
    let mut res = SharedResource::new();
    let mut log = Vec::new();
    future.poll(&mut ctx, &mut res, &mut log);
    let reported = log.clone();
    for _ in 0..10 {
        assert_eq!(
            future.poll(&mut ctx, &mut res, &mut log),
            Poll::Pending(Suspension::BudgetExhausted)
        );
        assert_eq!(future.script().consumed(), 21);
        assert_eq!(future.script().stage(), Stage::Consume);
        assert_eq!(res.issued(), 1);
        assert_eq!(log, reported);
    }
}

#[test]
fn poll_goes_on_after_a_resumption() {
    let mut future = ScenarioFuture::new(50);
    let mut ctx = ExecutionContext::new(Owner::WorkerPool, 21);
    let mut res = SharedResource::new();
    let mut log = Vec::new();
    future.poll(&mut ctx, &mut res, &mut log);
    ctx.resume(Owner::WorkerPool);
    assert_eq!(
        future.poll(&mut ctx, &mut res, &mut log),
        Poll::Pending(Suspension::BudgetExhausted)
    );
    assert_eq!(future.script().consumed(), 42);
    ctx.resume(Owner::WorkerPool);
    assert_eq!(future.poll(&mut ctx, &mut res, &mut log), Poll::Ready);
    assert_eq!(future.script().consumed(), 50);
    assert_eq!(ctx.remaining(), 13);
    assert_eq!(res.issued(), 2);
    assert_eq!(log.len(), 4 + 3 + 3);
    assert_eq!(log[4..7], [
        Progress::StillConsuming(0),
        Progress::StillConsuming(20),
        Progress::StillConsuming(40),
    ]);
}

#[test]
fn poll_waits_at_the_first_acquisition_while_a_writer_holds_the_resource() {
    let mut future = ScenarioFuture::new(5);
    let mut ctx = ExecutionContext::new(Owner::WorkerPool, 8);
    let mut res = SharedResource::new();
    let writer = res.acquire_write().unwrap();
    let mut log = Vec::new();
    assert_eq!(
        future.poll(&mut ctx, &mut res, &mut log),
        Poll::Pending(Suspension::Contended)
    );
    assert_eq!(future.script().stage(), Stage::AcquireFirst);
    assert_eq!(ctx.remaining(), 8);
    assert_eq!(res.issued(), 1);
    assert_eq!(log, vec![Progress::FutureEntered, Progress::AcquiringFirst]);
    assert_eq!(res.release_write(writer), Ok(()));
    assert_eq!(future.poll(&mut ctx, &mut res, &mut log), Poll::Ready);
    assert_eq!(res.state(), LockState::Unlocked);
}

#[test]
fn poll_waits_at_the_second_acquisition_while_a_writer_holds_the_resource() {
    let mut future = ScenarioFuture::new(30);
    let mut ctx = ExecutionContext::new(Owner::WorkerPool, 10);
    let mut res = SharedResource::new();
    let mut log = Vec::new();
    future.poll(&mut ctx, &mut res, &mut log);
    let writer = res.acquire_write().unwrap();
    ctx.resume(Owner::WorkerPool);
    assert_eq!(
        future.poll(&mut ctx, &mut res, &mut log),
        Poll::Pending(Suspension::BudgetExhausted)
    );
    ctx.resume(Owner::WorkerPool);
    assert_eq!(
        future.poll(&mut ctx, &mut res, &mut log),
        Poll::Pending(Suspension::Contended)
    );
    assert_eq!(future.script().stage(), Stage::AcquireSecond);
    assert_eq!(future.script().consumed(), 30);
    assert_eq!(log.last(), Some(&Progress::AcquiringSecond));
    assert_eq!(res.state(), LockState::Writer);
    assert_eq!(res.release_write(writer), Ok(()));
    assert_eq!(future.poll(&mut ctx, &mut res, &mut log), Poll::Ready);
    assert_eq!(log.last(), Some(&Progress::AcquiredSecond));
}

#[test]
fn poll_leaves_the_guards_of_other_readers_alone() {
    let mut future = ScenarioFuture::new(3);
    let mut ctx = ExecutionContext::new(Owner::WorkerPool, 8);
    let mut res = SharedResource::new();
    let other = res.acquire_read().unwrap();
    let mut log = Vec::new();
    assert_eq!(future.poll(&mut ctx, &mut res, &mut log), Poll::Ready);
    assert_eq!(res.state(), LockState::Readers(1));
    assert_eq!(res.release_read(other), Ok(()));
    assert_eq!(res.state(), LockState::Unlocked);
}

#[test]
fn poll_of_a_finished_future_is_ready_and_does_nothing() {
    let mut future = ScenarioFuture::new(0);
    let mut ctx = ExecutionContext::new(Owner::WorkerPool, 0);
    let mut res = SharedResource::new();
    let mut log = Vec::new();
    assert_eq!(future.poll(&mut ctx, &mut res, &mut log), Poll::Ready);
    let reported = log.len();
    assert_eq!(future.poll(&mut ctx, &mut res, &mut log), Poll::Ready);
    assert_eq!(log.len(), reported);
    assert_eq!(res.issued(), 2);
}
