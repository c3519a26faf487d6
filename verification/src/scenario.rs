//! The scenario: a single-worker scheduler whose root task runs a future to
//! completion from synchronous code, by one of the two strategies. The
//! future enters the shared resource, consumes more units of budget than
//! one budget holds, and enters the resource again.

use vstd::prelude::*;
use crate::budget::{ContextState, Owner, Suspension};
use crate::driver::{
    exit_reports,
    lemma_parked_forever,
    lemma_polls_needed,
    lemma_revived_finishes,
    polls_needed,
    DriveOutcome,
};
use crate::future::{lemma_poll, World};
use crate::resource::{can_read, ledger_wf, Holder, SharedResource};
use crate::scheduler::{
    lemma_halted_stays,
    lemma_ticks_split,
    Body,
    Event,
    Scheduler,
    SchedulerState,
    task_states,
    System,
    Task,
    TaskState,
};
use crate::script::{
    consume_reports,
    lemma_consume_reports,
    lemma_reports_at_end,
    lemma_reports_in_consumption,
    reports_between,
    reports_until,
    Progress,
    ScriptState,
    Stage,
    Strategy,
};

verus! {

/// The identifier of the root task.
pub const ROOT: u64 = 0;

/// What a run of the scenario showed.
#[derive(Debug)]
pub struct Report {
    /// Whether the future finished and control came back to the harness.
    pub completed: bool,
    /// The stage at which the future was left.
    pub stage: Stage,
    /// The units of budget that the future consumed.
    pub consumed: u64,
    /// The number of polls of the future.
    pub polls: u64,
    /// The progress reports, oldest first.
    pub log: Vec<Progress>,
}

/// Whether the scenario runs to its end. The nested driver gets through
/// only what the ambient budget covers at once; the dedicated driver gets
/// through everything, unless budgets are refilled to nothing.
pub open spec fn completes(strategy: Strategy, capacity: nat, units: nat) -> bool {
    match strategy {
        Strategy::Nested => units <= capacity,
        Strategy::Dedicated => units == 0 || capacity > 0,
    }
}

/// Where the scenario leaves the future: at its end, or in the consumption
/// of units, at the unit that found the budget empty.
pub open spec fn resting_script(strategy: Strategy, capacity: nat, units: nat) -> ScriptState {
    if completes(strategy, capacity, units) {
        ScriptState { stage: Stage::Finished, consumed: units, total: units }
    } else {
        ScriptState { stage: Stage::Consume, consumed: capacity, total: units }
    }
}

/// How the driver of the root task ends.
pub open spec fn drive_outcome(strategy: Strategy, capacity: nat, units: nat) -> DriveOutcome {
    if completes(strategy, capacity, units) {
        DriveOutcome::Completed {
            polls: match strategy {
                Strategy::Nested => 1,
                Strategy::Dedicated => polls_needed(units, capacity) as u64,
            },
        }
    } else {
        DriveOutcome::Stalled { reason: Suspension::BudgetExhausted, polls: 1 }
    }
}

/// The progress reports of a run, oldest first: the harness's entry, the
/// driver's, the future's own reports, and what the driver reports on its
/// way out. A run that completes ends with the harness's return and its
/// completion; of a run that stalls, the last that is heard is the
/// watchdog.
pub open spec fn scenario_log(strategy: Strategy, capacity: nat, units: nat) -> Seq<Progress> {
    seq![
        Progress::HarnessEntered,
        Progress::Calling(strategy),
        Progress::DriverEntered(strategy),
    ] + reports_until(resting_script(strategy, capacity, units)) + exit_reports(
        drive_outcome(strategy, capacity, units),
        strategy,
    ) + if completes(strategy, capacity, units) {
        seq![Progress::HarnessReturned, Progress::Done]
    } else {
        seq![Progress::WatchdogFired]
    }
}

/// The root task as the harness makes it.
pub open spec fn root_task(strategy: Strategy, units: nat) -> TaskState {
    TaskState {
        id: ROOT,
        body: Body::Driven(strategy),
        ctx: ContextState::fresh(Owner::WorkerPool, 0),
        script: ScriptState::start(units),
    }
}

/// The system when the scheduler is about to start: one worker slot, the
/// root task in the queue, the resource unlocked.
pub open spec fn scenario_start(strategy: Strategy, capacity: nat, units: nat) -> System {
    System {
        sched: SchedulerState::empty(1, capacity).schedule(root_task(strategy, units)),
        ledger: Seq::empty(),
        log: seq![Progress::HarnessEntered, Progress::Calling(strategy)],
    }
}

/// The system when the scheduler has come to a halt.
pub open spec fn scenario_end(strategy: Strategy, capacity: nat, units: nat) -> System {
    let root = TaskState {
        ctx: match strategy {
            Strategy::Nested => ContextState {
                owner: Owner::WorkerPool,
                remaining: 0,
                capacity,
            },
            Strategy::Dedicated => ContextState::fresh(Owner::WorkerPool, capacity),
        },
        script: resting_script(strategy, capacity, units),
        ..root_task(strategy, units)
    };
    let done = completes(strategy, capacity, units);
    System {
        sched: SchedulerState {
            capacity,
            workers: 1,
            queue: Seq::empty(),
            blocked: if done {
                Seq::empty()
            } else {
                seq![root]
            },
            parked: Seq::empty(),
            journal: seq![
                Event::Drove { task: ROOT, outcome: drive_outcome(strategy, capacity, units) },
            ],
        },
        ledger: if done {
            seq![Holder::Released, Holder::Released]
        } else {
            seq![Holder::Released]
        },
        log: seq![
            Progress::HarnessEntered,
            Progress::Calling(strategy),
            Progress::DriverEntered(strategy),
        ] + reports_until(resting_script(strategy, capacity, units)) + exit_reports(
            drive_outcome(strategy, capacity, units),
            strategy,
        ),
    }
}

/// The scenario takes one turn of the one worker: the root task runs its
/// driver, and the system is at a halt, with the root task done or the
/// worker slot taken for good.
pub proof fn lemma_scenario_turn(strategy: Strategy, capacity: nat, units: nat)
    requires
        capacity <= u64::MAX,
        units <= u64::MAX,
    ensures
        !scenario_start(strategy, capacity, units).halted(),
        scenario_start(strategy, capacity, units).tick() == scenario_end(strategy, capacity, units),
        scenario_end(strategy, capacity, units).halted(),
{
    let start = scenario_start(strategy, capacity, units);
    let end = scenario_end(strategy, capacity, units);
    let first = ScriptState::start(units);
    let rest = resting_script(strategy, capacity, units);
    let task = start.sched.queue[0];
    let w = task.world(start.ledger);
    assert(can_read(start.ledger));
    assert(ledger_wf(start.ledger));
    lemma_poll(w);
    if capacity >= 1 && units <= capacity {
        lemma_polls_needed(units, capacity, 0);
    }
    if capacity >= 1 {
        assert(polls_needed(units, capacity) <= u64::MAX) by {
            if units > 0 {
                assert((units - 1) / (capacity as int) <= units - 1) by (nonlinear_arith)
                    requires
                        units >= 1,
                        capacity >= 1,
                ;
            }
        }
    }
    assert(reports_between(first, rest) =~= reports_until(rest));
    assert(start.sched.queue.drop_first() =~= Seq::<TaskState>::empty());
    let next = start.tick();
    assert(next.ledger =~= end.ledger);
    assert(next.log =~= end.log);
    assert(next.sched.blocked =~= end.sched.blocked);
    assert(next.sched.journal =~= end.sched.journal);
    assert(next.sched.queue =~= end.sched.queue);
}

/// Runs the scenario: a scheduler with one worker slot whose budgets are
/// refilled to `capacity` units, and a root task that drives the future,
/// with `units` units to consume, by the given strategy. The report says
/// whether control came back, where the future was left, and what was
/// reported on the way.
pub fn run_scenario(strategy: Strategy, capacity: u64, units: u64) -> (report: Report)
    ensures
        report.completed == completes(strategy, capacity as nat, units as nat),
        report.stage == resting_script(strategy, capacity as nat, units as nat).stage,
        report.consumed == resting_script(strategy, capacity as nat, units as nat).consumed,
        report.polls == drive_outcome(strategy, capacity as nat, units as nat).poll_count(),
        report.log@ == scenario_log(strategy, capacity as nat, units as nat),
{
    let ghost start = scenario_start(strategy, capacity as nat, units as nat);
    let ghost end = scenario_end(strategy, capacity as nat, units as nat);
    let mut log: Vec<Progress> = Vec::new();
    log.push(Progress::HarnessEntered);
    let mut res = SharedResource::new();
    let mut sched = Scheduler::new(1, capacity);
    log.push(Progress::Calling(strategy));
    sched.schedule(Task::new(ROOT, Body::Driven(strategy), units));
    proof {
        assert(log@ =~= start.log);
        assert(sched.system(&res, log@) == start);
        lemma_scenario_turn(strategy, capacity as nat, units as nat);
    }
    sched.run(&mut res, &mut log);
    proof {
        let n = choose|n: nat|
            {
                &&& sched.system(&res, log@) == (#[trigger] start.ticks(n))
                &&& forall|m: nat| m < n ==> !(#[trigger] start.ticks(m)).halted()
            };
        assert(start.ticks(0) == start);
        assert(start.ticks(1) == start.ticks(0).tick());
        if n >= 2 {
            assert(!start.ticks(1).halted());
        }
        assert(sched.system(&res, log@) == end);
    }
    let journal = sched.journal();
    let outcome = match journal[0] {
        Event::Drove { outcome, .. } => outcome,
        _ => DriveOutcome::Stalled { reason: Suspension::BudgetExhausted, polls: 1 },
    };
    if outcome.is_completed() {
        log.push(Progress::HarnessReturned);
        log.push(Progress::Done);
        proof {
            assert(log@ =~= scenario_log(strategy, capacity as nat, units as nat));
        }
        Report {
            completed: true,
            stage: Stage::Finished,
            consumed: units,
            polls: outcome.polls(),
            log,
        }
    } else {
        log.push(Progress::WatchdogFired);
        let blocked = sched.blocked();
        proof {
            assert(task_states(blocked@).len() == blocked@.len());
            assert(task_states(blocked@)[0] == blocked@[0]@);
            assert(log@ =~= scenario_log(strategy, capacity as nat, units as nat));
        }
        let script = blocked[0].future().script();
        Report {
            completed: false,
            stage: script.stage(),
            consumed: script.consumed(),
            polls: outcome.polls(),
            log,
        }
    }
}

/// The world that the driver of the root task starts from: the future at
/// its start, the resource unlocked, and a full budget in the context that
/// the driver polls in.
pub open spec fn root_world(strategy: Strategy, capacity: nat, units: nat) -> World {
    World {
        script: ScriptState::start(units),
        held: None,
        ctx: ContextState::fresh(
            match strategy {
                Strategy::Nested => Owner::WorkerPool,
                Strategy::Dedicated => Owner::DedicatedThread,
            },
            capacity,
        ),
        ledger: Seq::empty(),
    }
}

/// The hazard. With a single worker, the nested driver, and more units to
/// consume than one budget holds, the scenario never completes. The future
/// enters the resource once and consumes exactly one budget; there it
/// stays, short of the second entry, however often the nested driver polls
/// it again and however many turns the scheduler is offered: the one worker
/// slot is taken by the root task, whose driver does not return. Control
/// never comes back to the harness, and nothing past the consumption of
/// units is ever reported.
pub proof fn lemma_hazard(capacity: nat, units: nat, polls: nat, turns: nat)
    requires
        capacity < units,
        units <= u64::MAX,
        polls >= 1,
        turns >= 1,
    ensures
        !completes(Strategy::Nested, capacity, units),
        root_world(Strategy::Nested, capacity, units).reprobed(polls).script == (ScriptState {
            stage: Stage::Consume,
            consumed: capacity,
            total: units,
        }),
        root_world(Strategy::Nested, capacity, units).reprobed(polls).script.first_acquired(),
        !root_world(Strategy::Nested, capacity, units).reprobed(polls).script.second_acquired(),
        !root_world(Strategy::Nested, capacity, units).reprobed(polls).script.finished(),
        root_world(Strategy::Nested, capacity, units).reprobed(polls).ctx.remaining == 0,
        scenario_start(Strategy::Nested, capacity, units).ticks(turns) == scenario_end(
            Strategy::Nested,
            capacity,
            units,
        ),
        scenario_end(Strategy::Nested, capacity, units).sched.blocked.len() == 1,
        scenario_end(Strategy::Nested, capacity, units).sched.blocked[0].script == (ScriptState {
            stage: Stage::Consume,
            consumed: capacity,
            total: units,
        }),
        scenario_end(Strategy::Nested, capacity, units).sched.journal == seq![
            Event::Drove {
                task: ROOT,
                outcome: DriveOutcome::Stalled { reason: Suspension::BudgetExhausted, polls: 1 },
            },
        ],
        scenario_log(Strategy::Nested, capacity, units).contains(Progress::AcquiredFirst),
        scenario_log(Strategy::Nested, capacity, units).contains(Progress::ConsumingBudget),
        !scenario_log(Strategy::Nested, capacity, units).contains(Progress::AcquiringSecond),
        !scenario_log(Strategy::Nested, capacity, units).contains(Progress::AcquiredSecond),
        !scenario_log(Strategy::Nested, capacity, units).contains(Progress::HarnessReturned),
        !scenario_log(Strategy::Nested, capacity, units).contains(Progress::Done),
        scenario_log(Strategy::Nested, capacity, units).last() == Progress::WatchdogFired,
{
    let w = root_world(Strategy::Nested, capacity, units);
    let start = scenario_start(Strategy::Nested, capacity, units);
    let end = scenario_end(Strategy::Nested, capacity, units);
    let rest = resting_script(Strategy::Nested, capacity, units);
    let log = scenario_log(Strategy::Nested, capacity, units);
    assert(can_read(w.ledger));
    lemma_parked_forever(w, polls);
    lemma_scenario_turn(Strategy::Nested, capacity, units);
    assert(start.ticks(1) == start.ticks(0).tick());
    assert(start.ticks(0) == start);
    lemma_ticks_split(start, 1, (turns - 1) as nat);
    lemma_halted_stays(end, (turns - 1) as nat);
    lemma_reports_in_consumption(rest);
    let r = reports_until(rest);
    let i = choose|i: int| 0 <= i < r.len() && r[i] == Progress::AcquiredFirst;
    assert(log[i + 3] == Progress::AcquiredFirst);
    let j = choose|j: int| 0 <= j < r.len() && r[j] == Progress::ConsumingBudget;
    assert(log[j + 3] == Progress::ConsumingBudget);
    lemma_consume_reports(capacity);
    assert forall|k: int| 0 <= k < log.len() implies log[k] != Progress::AcquiringSecond && log[k]
        != Progress::AcquiredSecond && log[k] != Progress::HarnessReturned && log[k]
        != Progress::Done by {
        if 3 <= k < 3 + r.len() {
            assert(log[k] == r[k - 3]);
            if k >= 7 {
                assert(r[k - 3] == consume_reports(capacity)[k - 7]);
            }
        } else if k >= 3 {
            assert(log[k] == Progress::WatchdogFired);
        }
    }
}

/// The fix. With the dedicated driver and budgets that are refilled to at
/// least one unit, the same scenario completes, whatever the number of
/// units: the future is finished at the poll that the last unit falls
/// into and at none before, one turn of the scheduler sees the root task
/// through, the worker slot is free again, and control is back at the
/// harness. What is reported begins with the harness's entry and ends with
/// the second entry into the resource, the harness's return and the
/// completion, in this order and with nothing between them.
pub proof fn lemma_fix(capacity: nat, units: nat, polls: nat, turns: nat)
    requires
        capacity >= 1,
        capacity <= u64::MAX,
        units <= u64::MAX,
        turns >= 1,
    ensures
        completes(Strategy::Dedicated, capacity, units),
        polls < polls_needed(units, capacity) ==> !root_world(
            Strategy::Dedicated,
            capacity,
            units,
        ).revived(polls).script.finished(),
        polls == polls_needed(units, capacity) ==> root_world(
            Strategy::Dedicated,
            capacity,
            units,
        ).revived(polls).script.finished(),
        polls_needed(units, capacity) * capacity >= units,
        polls_needed(units, capacity) <= units || polls_needed(units, capacity) == 1,
        scenario_start(Strategy::Dedicated, capacity, units).ticks(turns) == scenario_end(
            Strategy::Dedicated,
            capacity,
            units,
        ),
        scenario_end(Strategy::Dedicated, capacity, units).sched.blocked.len() == 0,
        scenario_end(Strategy::Dedicated, capacity, units).sched.journal == seq![
            Event::Drove {
                task: ROOT,
                outcome: DriveOutcome::Completed { polls: polls_needed(units, capacity) as u64 },
            },
        ],
        scenario_log(Strategy::Dedicated, capacity, units).len() >= 4,
        scenario_log(Strategy::Dedicated, capacity, units).first() == Progress::HarnessEntered,
        scenario_log(Strategy::Dedicated, capacity, units)[scenario_log(
            Strategy::Dedicated,
            capacity,
            units,
        ).len() - 3] == Progress::AcquiredSecond,
        scenario_log(Strategy::Dedicated, capacity, units)[scenario_log(
            Strategy::Dedicated,
            capacity,
            units,
        ).len() - 2] == Progress::HarnessReturned,
        scenario_log(Strategy::Dedicated, capacity, units).last() == Progress::Done,
        !scenario_log(Strategy::Dedicated, capacity, units).contains(Progress::NestedExited),
        !scenario_log(Strategy::Dedicated, capacity, units).contains(Progress::WatchdogFired),
{
    let w = root_world(Strategy::Dedicated, capacity, units);
    let start = scenario_start(Strategy::Dedicated, capacity, units);
    let end = scenario_end(Strategy::Dedicated, capacity, units);
    let rest = resting_script(Strategy::Dedicated, capacity, units);
    let log = scenario_log(Strategy::Dedicated, capacity, units);
    assert(can_read(w.ledger));
    lemma_revived_finishes(w, polls);
    if units > 0 {
        assert((units - 1) / (capacity as int) <= units - 1) by (nonlinear_arith)
            requires
                units >= 1,
                capacity >= 1,
        ;
    }
    lemma_scenario_turn(Strategy::Dedicated, capacity, units);
    assert(start.ticks(1) == start.ticks(0).tick());
    assert(start.ticks(0) == start);
    lemma_ticks_split(start, 1, (turns - 1) as nat);
    lemma_halted_stays(end, (turns - 1) as nat);
    lemma_reports_at_end(rest);
    let r = reports_until(rest);
    let n = consume_reports(units).len() as int;
    lemma_consume_reports(units);
    assert(r.len() == n + 7);
    assert(log.len() == r.len() + 5);
    assert(log[3 + r.len() - 1] == r[r.len() - 1]);
    assert forall|k: int| 0 <= k < log.len() implies log[k] != Progress::NestedExited && log[k]
        != Progress::WatchdogFired by {
        if 3 <= k < 3 + r.len() {
            assert(log[k] == r[k - 3]);
            if 4 <= k - 3 < 4 + n {
                assert(r[k - 3] == consume_reports(units)[k - 7]);
            }
        }
    }
}

} // verus!
