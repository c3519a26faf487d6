//! A deterministic model of a cooperative task runtime in which driving a
//! second executor from inside a running task starves that task of its
//! fairness budget, together with the strategy that avoids the stall.
//!
//! The model is explicit about what a runtime keeps implicit: the execution
//! context that a step charges is a value that is handed to the step, and
//! a run that would never end is reported as stalled.

use vstd::prelude::*;
use crate::scenario::{lemma_fix, lemma_hazard, run_scenario, scenario_log, Report};
use crate::script::{Progress, Stage, Strategy};

pub mod budget;
pub mod resource;
pub mod script;
pub mod future;
pub mod driver;
pub mod scheduler;
pub mod scenario;

verus! {

/// The value that a resumption refills a budget to.
pub const BUDGET: u64 = 128;

/// The number of units of budget that the scenario's future consumes.
pub const UNITS: u64 = 10_000;

/// The strategy that the selector stands for: the dedicated thread if it is
/// set, the nested driver if not.
pub open spec fn selected(use_tokio_driver: bool) -> Strategy {
    if use_tokio_driver {
        Strategy::Dedicated
    } else {
        Strategy::Nested
    }
}

/// Runs the scenario with the standard budget and number of units, by the
/// dedicated-thread strategy if `use_tokio_driver` is set and by the nested
/// strategy if not. The nested run stalls: the future is left in the
/// consumption of units with exactly one budget consumed, after a single
/// poll, and the last that is heard is the watchdog. The dedicated run
/// completes, in as many polls as budgets are needed to cover the units,
/// and what it reports ends with the second entry into the resource, the
/// harness's return and the completion.
pub fn deadlock_repro(use_tokio_driver: bool) -> (report: Report)
    ensures
        report.completed == use_tokio_driver,
        report.stage == (if use_tokio_driver {
            Stage::Finished
        } else {
            Stage::Consume
        }),
        report.consumed == (if use_tokio_driver {
            UNITS
        } else {
            BUDGET
        }),
        report.polls == (if use_tokio_driver {
            79u64
        } else {
            1u64
        }),
        report.log@ == scenario_log(selected(use_tokio_driver), BUDGET as nat, UNITS as nat),
        report.log@.len() >= 4,
        report.log@.first() == Progress::HarnessEntered,
        use_tokio_driver ==> report.log@[report.log@.len() - 3] == Progress::AcquiredSecond,
        use_tokio_driver ==> report.log@[report.log@.len() - 2] == Progress::HarnessReturned,
        use_tokio_driver ==> report.log@.last() == Progress::Done,
        use_tokio_driver ==> !report.log@.contains(Progress::NestedExited),
        use_tokio_driver ==> !report.log@.contains(Progress::WatchdogFired),
        !use_tokio_driver ==> report.log@.last() == Progress::WatchdogFired,
        !use_tokio_driver ==> !report.log@.contains(Progress::AcquiringSecond),
{
    let strategy = if use_tokio_driver {
        Strategy::Dedicated
    } else {
        Strategy::Nested
    };
    proof {
        assert(9_999int / 128 == 78) by (nonlinear_arith);
        lemma_fix(BUDGET as nat, UNITS as nat, 0, 1);
        lemma_hazard(BUDGET as nat, UNITS as nat, 1, 1);
    }
    run_scenario(strategy, BUDGET, UNITS)
}

} // verus!
