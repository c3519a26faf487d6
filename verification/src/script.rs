//! The inner future of the scenario, written as an explicit state machine.
//!
//! The future does nothing by itself: it names the next action, and whoever
//! drives it performs that action and then advances the script. Only two
//! actions can suspend, entering the shared resource and consuming a unit of
//! budget; an action that suspended is offered again by the next poll.

use vstd::prelude::*;

verus! {

/// A progress report is due after unit `i` whenever `i` is a multiple of
/// this interval.
pub const REPORT_INTERVAL: u64 = 20;

/// The two ways of running a future to completion from synchronous code.
#[derive(Clone, Copy, Debug, PartialEq, Eq, Structural)]
pub enum Strategy {
    /// A second poll loop on the calling worker thread.
    Nested,
    /// A fresh execution context on a thread of its own.
    Dedicated,
}

/// The observable steps of a scenario run, in the order of a complete run.
#[derive(Clone, Copy, Debug, PartialEq, Eq, Structural)]
pub enum Progress {
    HarnessEntered,
    Calling(Strategy),
    DriverEntered(Strategy),
    FutureEntered,
    AcquiringFirst,
    AcquiredFirst,
    ConsumingBudget,
    /// The unit with this index, counted from zero, was consumed.
    StillConsuming(u64),
    FinishedConsuming,
    AcquiringSecond,
    AcquiredSecond,
    /// The nested driver handed control back to the code that called it.
    /// The dedicated driver has no report of its own for its return.
    NestedExited,
    HarnessReturned,
    Done,
    /// The watchdog found the run still under way when its delay was over.
    WatchdogFired,
}

/// What the future asks of whoever drives it.
#[derive(Clone, Copy, Debug, PartialEq, Eq, Structural)]
pub enum Action {
    Report(Progress),
    AcquireRead,
    ReleaseRead,
    ConsumeUnit,
    Finish,
}

/// The point that the future has reached: the action that is due next.
#[derive(Clone, Copy, Debug, PartialEq, Eq, Structural)]
pub enum Stage {
    Enter,
    AnnounceFirst,
    AcquireFirst,
    ConfirmFirst,
    ReleaseFirst,
    AnnounceConsume,
    Consume,
    ReportConsume,
    AnnounceFinished,
    AnnounceSecond,
    AcquireSecond,
    ConfirmSecond,
    ReleaseSecond,
    Finished,
}

/// The mathematical state of the future: its stage, the units of budget it
/// has consumed and the units it consumes in all.
pub struct ScriptState {
    pub stage: Stage,
    pub consumed: nat,
    pub total: nat,
}

impl ScriptState {
    pub open spec fn start(total: nat) -> Self {
        ScriptState { stage: Stage::Enter, consumed: 0, total }
    }

    pub open spec fn wf(self) -> bool {
        match self.stage {
            Stage::Enter
            | Stage::AnnounceFirst
            | Stage::AcquireFirst
            | Stage::ConfirmFirst
            | Stage::ReleaseFirst
            | Stage::AnnounceConsume => self.consumed == 0,
            Stage::Consume => self.consumed < self.total,
            Stage::ReportConsume => 1 <= self.consumed <= self.total && (self.consumed - 1) % (
                REPORT_INTERVAL as int
            ) == 0,
            Stage::AnnounceFinished
            | Stage::AnnounceSecond
            | Stage::AcquireSecond
            | Stage::ConfirmSecond
            | Stage::ReleaseSecond
            | Stage::Finished => self.consumed == self.total,
        }
    }

    pub open spec fn finished(self) -> bool {
        self.stage == Stage::Finished
    }

    /// Whether the future holds a read guard at this stage.
    pub open spec fn holds_guard(self) -> bool {
        self.stage == Stage::ConfirmFirst || self.stage == Stage::ReleaseFirst || self.stage
            == Stage::ConfirmSecond || self.stage == Stage::ReleaseSecond
    }

    /// Whether the first acquisition lies behind the future.
    pub open spec fn first_acquired(self) -> bool {
        self.stage != Stage::Enter && self.stage != Stage::AnnounceFirst && self.stage
            != Stage::AcquireFirst
    }

    /// Whether the second acquisition lies behind the future.
    pub open spec fn second_acquired(self) -> bool {
        self.stage == Stage::ConfirmSecond || self.stage == Stage::ReleaseSecond || self.stage
            == Stage::Finished
    }

    /// The units of budget that the future has yet to consume.
    pub open spec fn units_left(self) -> nat {
        (self.total - self.consumed) as nat
    }

    /// The action that is due.
    pub open spec fn action(self) -> Action {
        match self.stage {
            Stage::Enter => Action::Report(Progress::FutureEntered),
            Stage::AnnounceFirst => Action::Report(Progress::AcquiringFirst),
            Stage::AcquireFirst => Action::AcquireRead,
            Stage::ConfirmFirst => Action::Report(Progress::AcquiredFirst),
            Stage::ReleaseFirst => Action::ReleaseRead,
            Stage::AnnounceConsume => Action::Report(Progress::ConsumingBudget),
            Stage::Consume => Action::ConsumeUnit,
            Stage::ReportConsume => Action::Report(
                Progress::StillConsuming((self.consumed - 1) as u64),
            ),
            Stage::AnnounceFinished => Action::Report(Progress::FinishedConsuming),
            Stage::AnnounceSecond => Action::Report(Progress::AcquiringSecond),
            Stage::AcquireSecond => Action::AcquireRead,
            Stage::ConfirmSecond => Action::Report(Progress::AcquiredSecond),
            Stage::ReleaseSecond => Action::ReleaseRead,
            Stage::Finished => Action::Finish,
        }
    }

    /// The stage that follows the consumption of units once `consumed` of them
    /// are done.
    pub open spec fn after_units(consumed: nat, total: nat) -> Stage {
        if consumed < total {
            Stage::Consume
        } else {
            Stage::AnnounceFinished
        }
    }

    /// The state once the action that is due has been performed.
    pub open spec fn next(self) -> Self {
        match self.stage {
            Stage::Enter => ScriptState { stage: Stage::AnnounceFirst, ..self },
            Stage::AnnounceFirst => ScriptState { stage: Stage::AcquireFirst, ..self },
            Stage::AcquireFirst => ScriptState { stage: Stage::ConfirmFirst, ..self },
            Stage::ConfirmFirst => ScriptState { stage: Stage::ReleaseFirst, ..self },
            Stage::ReleaseFirst => ScriptState { stage: Stage::AnnounceConsume, ..self },
            Stage::AnnounceConsume => ScriptState {
                stage: Self::after_units(self.consumed, self.total),
                ..self
            },
            Stage::Consume => if self.consumed % (REPORT_INTERVAL as nat) == 0 {
                ScriptState { stage: Stage::ReportConsume, consumed: self.consumed + 1, ..self }
            } else {
                ScriptState {
                    stage: Self::after_units(self.consumed + 1, self.total),
                    consumed: self.consumed + 1,
                    ..self
                }
            },
            Stage::ReportConsume => ScriptState {
                stage: Self::after_units(self.consumed, self.total),
                ..self
            },
            Stage::AnnounceFinished => ScriptState { stage: Stage::AnnounceSecond, ..self },
            Stage::AnnounceSecond => ScriptState { stage: Stage::AcquireSecond, ..self },
            Stage::AcquireSecond => ScriptState { stage: Stage::ConfirmSecond, ..self },
            Stage::ConfirmSecond => ScriptState { stage: Stage::ReleaseSecond, ..self },
            Stage::ReleaseSecond => ScriptState { stage: Stage::Finished, ..self },
            Stage::Finished => self,
        }
    }

    /// A bound on the number of actions that are still to come; every action
    /// but the last lowers it.
    pub open spec fn weight(self) -> nat {
        match self.stage {
            Stage::Enter => 12 + 2 * self.total,
            Stage::AnnounceFirst => 11 + 2 * self.total,
            Stage::AcquireFirst => 10 + 2 * self.total,
            Stage::ConfirmFirst => 9 + 2 * self.total,
            Stage::ReleaseFirst => 8 + 2 * self.total,
            Stage::AnnounceConsume => 7 + 2 * self.total,
            Stage::Consume => 6 + 2 * self.units_left(),
            Stage::ReportConsume => 7 + 2 * self.units_left(),
            Stage::AnnounceFinished => 5,
            Stage::AnnounceSecond => 4,
            Stage::AcquireSecond => 3,
            Stage::ConfirmSecond => 2,
            Stage::ReleaseSecond => 1,
            Stage::Finished => 0,
        }
    }
}

/// The reports that the consumption of the first `units` units gives rise
/// to: one for every unit whose index is a multiple of the interval.
pub open spec fn consume_reports(units: nat) -> Seq<Progress>
    decreases units,
{
    if units == 0 {
        Seq::empty()
    } else if (units - 1) % (REPORT_INTERVAL as int) == 0 {
        consume_reports((units - 1) as nat).push(Progress::StillConsuming((units - 1) as u64))
    } else {
        consume_reports((units - 1) as nat)
    }
}

/// The reports up to the start of the consumption of units.
pub open spec fn opening_reports() -> Seq<Progress> {
    seq![
        Progress::FutureEntered,
        Progress::AcquiringFirst,
        Progress::AcquiredFirst,
        Progress::ConsumingBudget,
    ]
}

/// All the reports that a future has issued when it has reached state `s`
/// from its start.
pub open spec fn reports_until(s: ScriptState) -> Seq<Progress> {
    match s.stage {
        Stage::Enter => Seq::empty(),
        Stage::AnnounceFirst => opening_reports().take(1),
        Stage::AcquireFirst | Stage::ConfirmFirst => opening_reports().take(2),
        Stage::ReleaseFirst | Stage::AnnounceConsume => opening_reports().take(3),
        Stage::Consume => opening_reports() + consume_reports(s.consumed),
        Stage::ReportConsume => opening_reports() + consume_reports((s.consumed - 1) as nat),
        Stage::AnnounceFinished => opening_reports() + consume_reports(s.total),
        Stage::AnnounceSecond => (opening_reports() + consume_reports(s.total)).push(
            Progress::FinishedConsuming,
        ),
        Stage::AcquireSecond | Stage::ConfirmSecond => (opening_reports() + consume_reports(
            s.total,
        )).push(Progress::FinishedConsuming).push(Progress::AcquiringSecond),
        Stage::ReleaseSecond | Stage::Finished => (opening_reports() + consume_reports(
            s.total,
        )).push(Progress::FinishedConsuming).push(Progress::AcquiringSecond).push(
            Progress::AcquiredSecond,
        ),
    }
}

/// The reports that a future issues on its way from state `from` to the
/// later state `to`.
pub open spec fn reports_between(from: ScriptState, to: ScriptState) -> Seq<Progress> {
    reports_until(to).subrange(reports_until(from).len() as int, reports_until(to).len() as int)
}

/// The consumption of units gives rise to no report but on units consumed,
/// and to one for each unit at most.
pub proof fn lemma_consume_reports(units: nat)
    ensures
        consume_reports(units).len() <= units,
        forall|i: int|
            0 <= i < consume_reports(units).len() ==> #[trigger] consume_reports(units)[i]
                is StillConsuming,
    decreases units,
{
    if units > 0 {
        lemma_consume_reports((units - 1) as nat);
    }
}

/// A future that rests in the consumption of units has reported that it
/// entered the resource once and that it began to consume, and has reported
/// nothing of what comes after.
pub proof fn lemma_reports_in_consumption(s: ScriptState)
    requires
        s.stage == Stage::Consume,
    ensures
        reports_until(s).contains(Progress::AcquiredFirst),
        reports_until(s).contains(Progress::ConsumingBudget),
        !reports_until(s).contains(Progress::FinishedConsuming),
        !reports_until(s).contains(Progress::AcquiringSecond),
        !reports_until(s).contains(Progress::AcquiredSecond),
{
    let r = reports_until(s);
    lemma_consume_reports(s.consumed);
    assert(r[2] == Progress::AcquiredFirst);
    assert(r[3] == Progress::ConsumingBudget);
    assert forall|i: int| 0 <= i < r.len() implies r[i] != Progress::FinishedConsuming && r[i]
        != Progress::AcquiringSecond && r[i] != Progress::AcquiredSecond by {
        if i >= 4 {
            assert(r[i] == consume_reports(s.consumed)[i - 4]);
        }
    }
}

/// A future that has finished has reported every step, the second entry
/// into the resource last.
pub proof fn lemma_reports_at_end(s: ScriptState)
    requires
        s.stage == Stage::Finished,
    ensures
        reports_until(s).contains(Progress::AcquiredFirst),
        reports_until(s).contains(Progress::FinishedConsuming),
        reports_until(s).contains(Progress::AcquiringSecond),
        reports_until(s).last() == Progress::AcquiredSecond,
{
    let r = reports_until(s);
    let n = consume_reports(s.total).len() as int;
    assert(r[2] == Progress::AcquiredFirst);
    assert(r[4 + n] == Progress::FinishedConsuming);
    assert(r[5 + n] == Progress::AcquiringSecond);
}

/// Reports issued on the way from `a` to `b` and then on to `c` are those
/// issued on the way from `a` to `c`.
pub proof fn lemma_reports_chain(a: ScriptState, b: ScriptState, c: ScriptState)
    requires
        reports_until(a).is_prefix_of(reports_until(b)),
        reports_until(b).is_prefix_of(reports_until(c)),
    ensures
        reports_until(a).is_prefix_of(reports_until(c)),
        reports_between(a, b) + reports_between(b, c) == reports_between(a, c),
{
    assert(reports_between(a, b) + reports_between(b, c) =~= reports_between(a, c));
}

/// The reports are exactly what the actions ask for: a reporting action adds
/// its report to those issued so far, and any other action adds none.
pub proof fn lemma_reports_next(s: ScriptState)
    requires
        s.wf(),
    ensures
        match s.action() {
            Action::Report(p) => reports_until(s.next()) == reports_until(s).push(p),
            _ => reports_until(s.next()) == reports_until(s),
        },
{
    let o = opening_reports();
    match s.stage {
        Stage::Enter => {
            assert(reports_until(s.next()) =~= reports_until(s).push(Progress::FutureEntered));
        },
        Stage::AnnounceFirst => {
            assert(reports_until(s.next()) =~= reports_until(s).push(Progress::AcquiringFirst));
        },
        Stage::ConfirmFirst => {
            assert(reports_until(s.next()) =~= reports_until(s).push(Progress::AcquiredFirst));
        },
        Stage::AnnounceConsume => {
            assert(reports_until(s.next()) =~= reports_until(s).push(Progress::ConsumingBudget));
        },
        Stage::ReportConsume => {
            let c = (s.consumed - 1) as nat;
            assert(o + consume_reports(c).push(Progress::StillConsuming(c as u64)) =~= (o
                + consume_reports(c)).push(Progress::StillConsuming(c as u64)));
        },
        _ => {},
    }
}

/// Performing the due action keeps the state well formed and the goal fixed,
/// and brings an unfinished future nearer to its end.
pub proof fn lemma_next(s: ScriptState)
    requires
        s.wf(),
    ensures
        s.next().wf(),
        s.next().total == s.total,
        s.consumed <= s.next().consumed <= s.consumed + 1,
        s.next().consumed == s.consumed + 1 <==> s.action() == Action::ConsumeUnit,
        !s.finished() ==> s.next().weight() < s.weight(),
        s.finished() <==> s.weight() == 0,
        s.finished() <==> s.action() == Action::Finish,
{
}

/// The future of the scenario.
#[derive(Clone, Copy, Debug)]
pub struct Script {
    stage: Stage,
    consumed: u64,
    total: u64,
}

impl View for Script {
    type V = ScriptState;

    closed spec fn view(&self) -> ScriptState {
        ScriptState {
            stage: self.stage,
            consumed: self.consumed as nat,
            total: self.total as nat,
        }
    }
}

impl Script {
    pub closed spec fn wf(&self) -> bool {
        self@.wf()
    }

    pub proof fn lemma_wf(&self)
        requires
            self.wf(),
        ensures
            self@.wf(),
            self@.total <= u64::MAX,
    {
    }

    /// A future at its start that is to consume `total` units of budget.
    pub fn new(total: u64) -> (script: Script)
        ensures
            script.wf(),
            script@ == ScriptState::start(total as nat),
    {
        Script { stage: Stage::Enter, consumed: 0, total }
    }

    pub fn stage(&self) -> (stage: Stage)
        ensures
            stage == self@.stage,
    {
        self.stage
    }

    pub fn consumed(&self) -> (consumed: u64)
        ensures
            consumed == self@.consumed,
    {
        self.consumed
    }

    pub fn total(&self) -> (total: u64)
        ensures
            total == self@.total,
    {
        self.total
    }

    pub fn is_finished(&self) -> (finished: bool)
        ensures
            finished == self@.finished(),
    {
        match self.stage {
            Stage::Finished => true,
            _ => false,
        }
    }

    /// The action that is due; the state stays as it is.
    pub fn action(&self) -> (action: Action)
        requires
            self.wf(),
        ensures
            action == self@.action(),
    {
        match self.stage {
            Stage::Enter => Action::Report(Progress::FutureEntered),
            Stage::AnnounceFirst => Action::Report(Progress::AcquiringFirst),
            Stage::AcquireFirst => Action::AcquireRead,
            Stage::ConfirmFirst => Action::Report(Progress::AcquiredFirst),
            Stage::ReleaseFirst => Action::ReleaseRead,
            Stage::AnnounceConsume => Action::Report(Progress::ConsumingBudget),
            Stage::Consume => Action::ConsumeUnit,
            Stage::ReportConsume => Action::Report(Progress::StillConsuming(self.consumed - 1)),
            Stage::AnnounceFinished => Action::Report(Progress::FinishedConsuming),
            Stage::AnnounceSecond => Action::Report(Progress::AcquiringSecond),
            Stage::AcquireSecond => Action::AcquireRead,
            Stage::ConfirmSecond => Action::Report(Progress::AcquiredSecond),
            Stage::ReleaseSecond => Action::ReleaseRead,
            Stage::Finished => Action::Finish,
        }
    }

    fn after_units(consumed: u64, total: u64) -> (stage: Stage)
        ensures
            stage == ScriptState::after_units(consumed as nat, total as nat),
    {
        if consumed < total {
            Stage::Consume
        } else {
            Stage::AnnounceFinished
        }
    }

    /// Records that the due action has been performed.
    pub fn advance(&mut self)
        requires
            old(self).wf(),
        ensures
            final(self).wf(),
            final(self)@ == old(self)@.next(),
    {
        proof {
            lemma_next(self@);
        }
        match self.stage {
            Stage::Enter => {
                self.stage = Stage::AnnounceFirst;
            },
            Stage::AnnounceFirst => {
                self.stage = Stage::AcquireFirst;
            },
            Stage::AcquireFirst => {
                self.stage = Stage::ConfirmFirst;
            },
            Stage::ConfirmFirst => {
                self.stage = Stage::ReleaseFirst;
            },
            Stage::ReleaseFirst => {
                self.stage = Stage::AnnounceConsume;
            },
            Stage::AnnounceConsume => {
                self.stage = Self::after_units(self.consumed, self.total);
            },
            Stage::Consume => {
                let report = self.consumed % REPORT_INTERVAL == 0;
                self.consumed = self.consumed + 1;
                if report {
                    self.stage = Stage::ReportConsume;
                } else {
                    self.stage = Self::after_units(self.consumed, self.total);
                }
            },
            Stage::ReportConsume => {
                self.stage = Self::after_units(self.consumed, self.total);
            },
            Stage::AnnounceFinished => {
                self.stage = Stage::AnnounceSecond;
            },
            Stage::AnnounceSecond => {
                self.stage = Stage::AcquireSecond;
            },
            Stage::AcquireSecond => {
                self.stage = Stage::ConfirmSecond;
            },
            Stage::ConfirmSecond => {
                self.stage = Stage::ReleaseSecond;
            },
            Stage::ReleaseSecond => {
                self.stage = Stage::Finished;
            },
            Stage::Finished => {},
        }
    }

    /// Hands out the due action and moves on to the one after it. To be used
    /// where every action is carried through before the next is asked for.
    pub fn next_action(&mut self) -> (action: Action)
        requires
            old(self).wf(),
        ensures
            final(self).wf(),
            action == old(self)@.action(),
            final(self)@ == old(self)@.next(),
    {
        let action = self.action();
        self.advance();
        action
    }
}

} // verus!
