use tokio_block_on_deadlock::scenario::{run_scenario, ROOT};
use tokio_block_on_deadlock::script::{Progress, Stage, Strategy};
use tokio_block_on_deadlock::{deadlock_repro, BUDGET, UNITS};

fn opening(strategy: Strategy) -> Vec<Progress> {
    vec![
        Progress::HarnessEntered,
        Progress::Calling(strategy),
        Progress::DriverEntered(strategy),
        Progress::FutureEntered,
        Progress::AcquiringFirst,
        Progress::AcquiredFirst,
        Progress::ConsumingBudget,
    ]
}

#[test]
fn scenario_constants() {
    assert_eq!(BUDGET, 128);
    assert_eq!(UNITS, 10_000);
    assert_eq!(ROOT, 0);
}

#[test]
fn hazardous_strategy_stalls_before_the_second_acquisition() {
    let report = deadlock_repro(false);
    assert!(!report.completed);
    assert_eq!(report.stage, Stage::Consume);
    assert_eq!(report.consumed, 128);
    assert_eq!(report.polls, 1);
    let mut expected = opening(Strategy::Nested);
    for unit in [0, 20, 40, 60, 80, 100, 120] {
        expected.push(Progress::StillConsuming(unit));
    }
    expected.push(Progress::WatchdogFired);
    assert_eq!(report.log, expected);
    assert!(report.log.contains(&Progress::AcquiredFirst));
    assert!(!report.log.contains(&Progress::AcquiringSecond));
    assert!(!report.log.contains(&Progress::AcquiredSecond));
    assert!(!report.log.contains(&Progress::Done));
}

#[test]
fn hazardous_strategy_stalls_the_same_way_every_time() {
    let first = deadlock_repro(false);
    for _ in 0..5 {
        let again = deadlock_repro(false);
        assert_eq!(again.completed, first.completed);
        assert_eq!(again.stage, first.stage);
        assert_eq!(again.consumed, first.consumed);
        assert_eq!(again.log, first.log);
    }
}

#[test]
fn safe_strategy_completes_every_step() {
    let report = deadlock_repro(true);
    assert!(report.completed);
    assert_eq!(report.stage, Stage::Finished);
    assert_eq!(report.consumed, 10_000);
    assert_eq!(report.polls, 79);
    let mut expected = opening(Strategy::Dedicated);
    for unit in (0..10_000).step_by(20) {
        expected.push(Progress::StillConsuming(unit));
    }
    expected.extend([
        Progress::FinishedConsuming,
        Progress::AcquiringSecond,
        Progress::AcquiredSecond,
        Progress::HarnessReturned,
        Progress::Done,
    ]);
    assert_eq!(report.log, expected);
    assert!(!report.log.contains(&Progress::WatchdogFired));
    assert!(!report.log.contains(&Progress::NestedExited));
    assert_eq!(report.log.first(), Some(&Progress::HarnessEntered));
    assert_eq!(
        report.log[report.log.len() - 3..],
        [Progress::AcquiredSecond, Progress::HarnessReturned, Progress::Done]
    );
}

#[test]
fn safe_strategy_completes_the_same_way_every_time() {
    let first = deadlock_repro(true);
    for _ in 0..5 {
        let again = deadlock_repro(true);
        assert!(again.completed);
        assert_eq!(again.polls, first.polls);
        assert_eq!(again.log, first.log);
    }
}

#[test]
fn nested_strategy_stalls_whenever_the_units_exceed_the_budget() {
    for (capacity, units) in [(0u64, 1u64), (1, 2), (5, 6), (128, 129), (128, 10_000), (19, 400)] {
        let report = run_scenario(Strategy::Nested, capacity, units);
        assert!(!report.completed);
        assert_eq!(report.stage, Stage::Consume);
        assert_eq!(report.consumed, capacity);
        assert_eq!(report.polls, 1);
        assert!(!report.log.contains(&Progress::AcquiringSecond));
        assert_eq!(report.log.last(), Some(&Progress::WatchdogFired));
    }
}

#[test]
fn nested_strategy_completes_within_one_budget() {
    for (capacity, units) in [(0u64, 0u64), (1, 1), (128, 127), (128, 128)] {
        let report = run_scenario(Strategy::Nested, capacity, units);
        assert!(report.completed);
        assert_eq!(report.stage, Stage::Finished);
        assert_eq!(report.consumed, units);
        assert_eq!(report.log.last(), Some(&Progress::Done));
    }
}

#[test]
fn dedicated_strategy_completes_whatever_the_number_of_units() {
    for (capacity, units, polls) in
        [(1u64, 2u64, 2u64), (5, 6, 2), (128, 129, 2), (19, 400, 22), (128, 0, 1), (7, 7, 1)]
    {
        let report = run_scenario(Strategy::Dedicated, capacity, units);
        assert!(report.completed);
        assert_eq!(report.stage, Stage::Finished);
        assert_eq!(report.consumed, units);
        assert_eq!(report.polls, polls);
        assert_eq!(report.log.last(), Some(&Progress::Done));
        assert!(report.log.contains(&Progress::AcquiredSecond));
    }
}

#[test]
fn dedicated_strategy_stalls_when_budgets_are_refilled_to_nothing() {
    let report = run_scenario(Strategy::Dedicated, 0, 3);
    assert!(!report.completed);
    assert_eq!(report.stage, Stage::Consume);
    assert_eq!(report.consumed, 0);
    assert_eq!(report.polls, 1);
    let mut expected = opening(Strategy::Dedicated);
    expected.push(Progress::WatchdogFired);
    assert_eq!(report.log, expected);
}
