//! The two ways of running a future to completion from synchronous code.
//!
//! The nested driver polls the future on the caller's own worker thread and
//! in the caller's execution context, which it does not own: when the future
//! yields, the driver parks the thread, and the one party that could resume
//! the context is the thread that is parked. The dedicated driver gives the
//! future a context of its own on a new thread and resumes it itself.

use vstd::prelude::*;
use vstd::arithmetic::div_mod::lemma_fundamental_div_mod_converse;
use crate::budget::{ContextState, ExecutionContext, Owner, Poll, Suspension};
use crate::future::{lemma_poll, ScenarioFuture, World};
use crate::resource::{can_read, ledger_wf, Holder, SharedResource};
use crate::script::{
    lemma_reports_chain,
    reports_between,
    reports_until,
    Progress,
    ScriptState,
    Stage,
    Strategy,
};

verus! {

/// How an attempt to run a future to completion ended.
#[derive(Clone, Copy, Debug, PartialEq, Eq, Structural)]
pub enum DriveOutcome {
    /// The future finished; `polls` polls were needed.
    Completed { polls: u64 },
    /// The future yielded at its poll number `polls` and nothing can resume
    /// it any more.
    Stalled { reason: Suspension, polls: u64 },
}

impl DriveOutcome {
    pub open spec fn completed(self) -> bool {
        self is Completed
    }

    pub open spec fn poll_count(self) -> nat {
        match self {
            DriveOutcome::Completed { polls } => polls as nat,
            DriveOutcome::Stalled { polls, .. } => polls as nat,
        }
    }

    /// The outcome of a drive whose last poll, number `polls`, reported
    /// `poll`.
    pub open spec fn after(poll: Poll, polls: nat) -> DriveOutcome {
        match poll {
            Poll::Ready => DriveOutcome::Completed { polls: polls as u64 },
            Poll::Pending(reason) => DriveOutcome::Stalled { reason, polls: polls as u64 },
        }
    }

    pub fn is_completed(&self) -> (completed: bool)
        ensures
            completed == self.completed(),
    {
        match self {
            DriveOutcome::Completed { .. } => true,
            DriveOutcome::Stalled { .. } => false,
        }
    }

    pub fn polls(&self) -> (polls: u64)
        ensures
            polls == self.poll_count(),
    {
        match self {
            DriveOutcome::Completed { polls } => *polls,
            DriveOutcome::Stalled { polls, .. } => *polls,
        }
    }
}

/// What a driver reports when it hands control back. The nested driver
/// reports its exit if the future finished; a driver that stalled reports
/// nothing, and the dedicated driver reports nothing in either case: after
/// the future's last report the next that is heard is the caller's.
pub open spec fn exit_reports(outcome: DriveOutcome, strategy: Strategy) -> Seq<Progress> {
    if outcome.completed() && strategy == Strategy::Nested {
        seq![Progress::NestedExited]
    } else {
        Seq::empty()
    }
}

impl World {
    /// The owner of the context resumes it.
    pub open spec fn resumed(self) -> World {
        World { ctx: self.ctx.resume(self.ctx.owner), ..self }
    }

    /// `n` polls in a row with no resumption between them: what a poll loop
    /// can do that does not own the context.
    pub open spec fn reprobed(self, n: nat) -> World
        decreases n,
    {
        if n == 0 {
            self
        } else {
            self.reprobed((n - 1) as nat).poll()
        }
    }

    /// `n` polls, each after a resumption by the owner of the context.
    pub open spec fn revived(self, n: nat) -> World
        decreases n,
    {
        if n == 0 {
            self
        } else {
            self.revived((n - 1) as nat).resumed().poll()
        }
    }
}

/// A second poll straight after the first finds everything as the first
/// left it.
pub proof fn lemma_poll_again(w: World)
    requires
        w.wf(),
        w.held is None,
    ensures
        w.polled().polled() == w.polled(),
{
    lemma_poll(w);
    let p = w.polled();
    assert(p.polled().ledger =~= p.ledger);
}

/// A context that its owner does not resume stays where the first poll left
/// it: polling again, any number of times, changes nothing. A future that
/// the first poll did not finish is therefore never finished.
pub proof fn lemma_parked_forever(w: World, n: nat)
    requires
        w.wf(),
        w.held is None,
        n >= 1,
    ensures
        w.reprobed(n) == w.polled(),
        w.reprobed(n).script.finished() <==> w.outcome() == Poll::Ready,
    decreases n,
{
    lemma_poll(w);
    if n == 1 {
        assert(w.reprobed(0) == w);
    } else {
        lemma_parked_forever(w, (n - 1) as nat);
        lemma_poll_again(w);
        lemma_poll(w.polled());
    }
}

/// The number of polls in which a context of the given capacity, refilled
/// before each poll, gets through `units` units.
pub open spec fn polls_needed(units: nat, capacity: nat) -> nat {
    if units == 0 || capacity == 0 {
        1
    } else {
        ((units - 1) / (capacity as int) + 1) as nat
    }
}

/// `k` full budgets fall short of `units` and one more covers them: then
/// `k + 1` polls are needed.
pub proof fn lemma_polls_needed(units: nat, capacity: nat, k: nat)
    requires
        capacity >= 1,
        k == 0 || k * capacity < units,
        units <= (k + 1) * capacity,
    ensures
        polls_needed(units, capacity) == k + 1,
        polls_needed(units, capacity) * capacity >= units,
{
    if units > 0 {
        assert((k + 1) * capacity == k * capacity + capacity) by (nonlinear_arith);
        assert(k == 0 ==> k * capacity == 0);
        lemma_fundamental_div_mod_converse(
            units - 1,
            capacity as int,
            k as int,
            units - 1 - k * capacity,
        );
    } else {
        assert(k == 0) by (nonlinear_arith)
            requires
                capacity >= 1,
                k == 0 || k * capacity < 0,
        ;
    }
}

/// The world in which a dedicated thread starts to drive a future: the
/// context is new, owned by the thread, and its budget is full.
pub open spec fn dedicated_start(script: ScriptState, capacity: nat, ledger: Seq<Holder>) -> World {
    World {
        script,
        held: None,
        ctx: ContextState::fresh(Owner::DedicatedThread, capacity),
        ledger,
    }
}

/// Where a drive leaves the future and the resource, and how it ends.
pub struct Drive {
    pub script: ScriptState,
    pub ledger: Seq<Holder>,
    pub outcome: DriveOutcome,
}

/// `n` entries of guards that were given back.
pub open spec fn released(n: nat) -> Seq<Holder> {
    Seq::new(n, |i: int| Holder::Released)
}

/// What the nested driver does in closed form: one poll in the ambient
/// context, and no more.
pub open spec fn nested_drive(w: World) -> Drive {
    Drive { script: w.polled().script, ledger: w.polled().ledger, outcome: DriveOutcome::after(
        w.outcome(),
        1,
    ) }
}

/// What the dedicated driver does in closed form. A writer stops the future
/// at the acquisition it has not yet made; a budget that is refilled to
/// nothing stops it at the first unit; otherwise every unit is consumed,
/// one full budget per poll, and the future finishes.
pub open spec fn dedicated_drive(script: ScriptState, capacity: nat, ledger: Seq<Holder>) -> Drive {
    let polls = polls_needed(script.units_left(), capacity) as u64;
    let first: nat = if script.first_acquired() {
        0
    } else {
        1
    };
    let second: nat = if script.second_acquired() {
        0
    } else {
        1
    };
    if !can_read(ledger) && !script.first_acquired() {
        Drive {
            script: ScriptState { stage: Stage::AcquireFirst, ..script },
            ledger,
            outcome: DriveOutcome::Stalled { reason: Suspension::Contended, polls: 1 },
        }
    } else if capacity == 0 && script.units_left() > 0 {
        Drive {
            script: ScriptState { stage: Stage::Consume, ..script },
            ledger: ledger + released(first),
            outcome: DriveOutcome::Stalled { reason: Suspension::BudgetExhausted, polls: 1 },
        }
    } else if !can_read(ledger) && !script.second_acquired() {
        Drive {
            script: ScriptState { stage: Stage::AcquireSecond, consumed: script.total, ..script },
            ledger,
            outcome: DriveOutcome::Stalled { reason: Suspension::Contended, polls },
        }
    } else {
        Drive {
            script: ScriptState { stage: Stage::Finished, consumed: script.total, ..script },
            ledger: ledger + released(first + second),
            outcome: DriveOutcome::Completed { polls },
        }
    }
}

/// Runs `future` to completion on the calling worker thread, in the ambient
/// execution context of the task that calls. The future is polled in place;
/// when it yields, the driver parks the thread and waits to be woken. It
/// does not own `ambient` and never refills its budget, and the owner cannot
/// run while its thread is parked here: a future that yields is stalled for
/// good, which the outcome reports in place of a wait that never ends.
pub fn run_to_completion_nested(
    future: &mut ScenarioFuture,
    ambient: &mut ExecutionContext,
    res: &mut SharedResource,
    log: &mut Vec<Progress>,
) -> (outcome: DriveOutcome)
    requires
        old(future).wf(),
        old(ambient).wf(),
        old(res).wf(),
    ensures
        final(future).wf(),
        final(ambient).wf(),
        final(res).wf(),
        final(future)@ == nested_drive(old(future).world(old(ambient), old(res))).script,
        final(res)@ == nested_drive(old(future).world(old(ambient), old(res))).ledger,
        outcome == nested_drive(old(future).world(old(ambient), old(res))).outcome,
        final(ambient)@ == old(ambient)@.charge(
            old(future).world(old(ambient), old(res)).units_now(),
        ),
        final(ambient)@.remaining <= old(ambient)@.remaining,
        forall|n: nat|
            n >= 1 ==> final(future)@ == (#[trigger] old(future).world(
                old(ambient),
                old(res),
            ).reprobed(n)).script,
        final(log)@ == old(log)@.push(Progress::DriverEntered(Strategy::Nested)) + reports_between(
            old(future)@,
            final(future)@,
        ) + exit_reports(outcome, Strategy::Nested),
{
    let ghost start = future.world(ambient, res);
    proof {
        future.lemma_wf();
        ambient.lemma_wf();
        res.lemma_wf();
    }
    log.push(Progress::DriverEntered(Strategy::Nested));
    let poll = future.poll(ambient, res, log);
    proof {
        assert forall|n: nat| n >= 1 implies start.polled() == #[trigger] start.reprobed(n) by {
            lemma_parked_forever(start, n);
        }
    }
    match poll {
        Poll::Ready => {
            log.push(Progress::NestedExited);
            proof {
                assert(log@ =~= old(log)@.push(Progress::DriverEntered(Strategy::Nested))
                    + reports_between(old(future)@, future@) + seq![Progress::NestedExited]);
            }
            DriveOutcome::Completed { polls: 1 }
        },
        Poll::Pending(reason) => {
            proof {
                assert(log@ =~= old(log)@.push(Progress::DriverEntered(Strategy::Nested))
                    + reports_between(old(future)@, future@) + Seq::<Progress>::empty());
            }
            DriveOutcome::Stalled { reason, polls: 1 }
        },
    }
}

/// Runs `future` to completion on a thread of its own. The thread gets a new
/// execution context with a budget of `capacity` units, which it owns: it
/// polls the future and, whenever the future yields for want of budget,
/// resumes it with the budget refilled. The caller waits for the thread to
/// end and takes over its result. The drive stalls only where no refill
/// helps: while a writer holds the resource, or with a budget that is
/// refilled to nothing. The driver reports its entry and nothing else:
/// after that, `log` takes the future's own reports alone.
pub fn run_to_completion_on_new_thread(
    future: &mut ScenarioFuture,
    capacity: u64,
    res: &mut SharedResource,
    log: &mut Vec<Progress>,
) -> (outcome: DriveOutcome)
    requires
        old(future).wf(),
        old(res).wf(),
    ensures
        final(future).wf(),
        final(res).wf(),
        final(future)@ == dedicated_drive(old(future)@, capacity as nat, old(res)@).script,
        final(res)@ == dedicated_drive(old(future)@, capacity as nat, old(res)@).ledger,
        outcome == dedicated_drive(old(future)@, capacity as nat, old(res)@).outcome,
        outcome.poll_count() >= 1,
        final(future)@ == dedicated_start(old(future)@, capacity as nat, old(res)@).revived(
            outcome.poll_count(),
        ).script,
        final(res)@ == dedicated_start(old(future)@, capacity as nat, old(res)@).revived(
            outcome.poll_count(),
        ).ledger,
        final(log)@ == old(log)@.push(Progress::DriverEntered(Strategy::Dedicated))
            + reports_between(old(future)@, final(future)@),
{
    let ghost first = future@;
    let ghost ledger = res@;
    let ghost start = dedicated_start(first, capacity as nat, ledger);
    let ghost units = first.units_left();
    let ghost entered = old(log)@.push(Progress::DriverEntered(Strategy::Dedicated));
    let ghost goal = dedicated_drive(first, capacity as nat, ledger);
    log.push(Progress::DriverEntered(Strategy::Dedicated));
    let mut ctx = ExecutionContext::new(Owner::DedicatedThread, capacity);
    let mut polls: u64 = 0;
    proof {
        future.lemma_wf();
        res.lemma_wf();
        assert(start.revived(0) == start);
        assert(log@ =~= entered + reports_between(first, first));
        assert(res@ =~= ledger + released(0));
    }
    loop
        invariant
            future.wf(),
            ctx.wf(),
            res.wf(),
            first == old(future)@,
            ledger == old(res)@,
            first.wf(),
            !first.holds_guard(),
            first.total <= u64::MAX,
            ledger_wf(ledger),
            units == first.units_left(),
            start == dedicated_start(first, capacity as nat, ledger),
            goal == dedicated_drive(first, capacity as nat, ledger),
            entered == old(log)@.push(Progress::DriverEntered(Strategy::Dedicated)),
            ctx@ == ContextState::fresh(Owner::DedicatedThread, capacity as nat),
            future.world(&ctx, res) == start.revived(polls as nat).resumed(),
            can_read(res@) == can_read(ledger),
            polls == 0 ==> future@ == first && res@ == ledger,
            polls >= 1 ==> capacity >= 1 && future@ == (ScriptState {
                stage: Stage::Consume,
                consumed: (first.consumed + polls * capacity) as nat,
                ..first
            }) && polls * capacity < units && res@ == ledger + released(
                if first.first_acquired() {
                    0nat
                } else {
                    1nat
                },
            ) && (can_read(ledger) || first.first_acquired()),
            reports_until(first).is_prefix_of(reports_until(future@)),
            log@ == entered + reports_between(first, future@),
        decreases future@.units_left(),
    {
        let ghost before = future@;
        let ghost world = future.world(&ctx, res);
        let ghost reported = log@;
        proof {
            future.lemma_wf();
            lemma_poll(world);
            assert(polls >= 1 ==> polls <= polls * capacity) by (nonlinear_arith)
                requires
                    polls >= 1 ==> capacity >= 1,
            ;
            assert(start.revived((polls + 1) as nat) == start.revived(
                polls as nat,
            ).resumed().poll());
        }
        let poll = future.poll(&mut ctx, res, log);
        polls = polls + 1;
        proof {
            lemma_reports_chain(first, before, future@);
            assert(log@ =~= entered + reports_between(first, future@));
            assert(polls * capacity == (polls - 1) * capacity + capacity) by (nonlinear_arith);
            assert(polls == 1 ==> (polls - 1) * capacity == 0);
            if capacity >= 1 && !world.starves() && !world.waits_first() {
                lemma_polls_needed(units, capacity as nat, (polls - 1) as nat);
            }
            assert(future.world(&ctx, res) == start.revived(polls as nat));
        }
        match poll {
            Poll::Ready => {
                proof {
                    assert(res@ =~= goal.ledger);
                }
                return DriveOutcome::Completed { polls };
            },
            Poll::Pending(Suspension::Contended) => {
                proof {
                    assert(res@ =~= goal.ledger);
                }
                return DriveOutcome::Stalled { reason: Suspension::Contended, polls };
            },
            Poll::Pending(Suspension::BudgetExhausted) => {
                ctx.resume(Owner::DedicatedThread);
                if ctx.remaining() == 0 {
                    proof {
                        assert(res@ =~= goal.ledger);
                    }
                    return DriveOutcome::Stalled { reason: Suspension::BudgetExhausted, polls };
                }
                proof {
                    assert(res@ =~= ledger + released(
                        if first.first_acquired() {
                            0nat
                        } else {
                            1nat
                        },
                    ));
                }
            },
        }
    }
}

/// While full budgets fall short of what is left to consume, every poll of
/// a thread that owns its context consumes one full budget and leaves the
/// future in the consumption of units.
pub proof fn lemma_revived_short(w: World, k: nat)
    requires
        w.wf(),
        w.held is None,
        can_read(w.ledger),
        w.ctx.remaining == w.ctx.capacity,
        k >= 1,
        k * w.ctx.capacity < w.script.units_left(),
    ensures
        w.revived(k).wf(),
        w.revived(k).held is None,
        can_read(w.revived(k).ledger),
        w.revived(k).script == (ScriptState {
            stage: Stage::Consume,
            consumed: w.script.consumed + k * w.ctx.capacity,
            ..w.script
        }),
        w.revived(k).ctx == (ContextState { remaining: 0, ..w.ctx }),
    decreases k,
{
    let c = w.ctx.capacity;
    assert(k * c == (k - 1) * c + c) by (nonlinear_arith);
    if k == 1 {
        assert(w.revived(0) == w);
        assert(w.resumed() == w);
        assert((k - 1) * c == 0) by (nonlinear_arith)
            requires
                k == 1,
        ;
        lemma_poll(w);
    } else {
        lemma_revived_short(w, (k - 1) as nat);
        lemma_poll(w.revived((k - 1) as nat).resumed());
    }
}

/// A thread that owns its context and refills it to at least one unit
/// finishes the future, as long as no writer holds the resource, and it
/// does so at the poll that the last unit falls into, not before.
pub proof fn lemma_revived_finishes(w: World, polls: nat)
    requires
        w.wf(),
        w.held is None,
        can_read(w.ledger),
        w.ctx.remaining == w.ctx.capacity,
        w.ctx.capacity >= 1,
        !w.script.finished(),
    ensures
        polls < polls_needed(w.script.units_left(), w.ctx.capacity) ==> !w.revived(
            polls,
        ).script.finished(),
        polls == polls_needed(w.script.units_left(), w.ctx.capacity) ==> w.revived(
            polls,
        ).script.finished(),
        polls_needed(w.script.units_left(), w.ctx.capacity) * w.ctx.capacity
            >= w.script.units_left(),
{
    let c = w.ctx.capacity;
    let u = w.script.units_left();
    let n = polls_needed(u, c);
    if u <= c {
        lemma_polls_needed(u, c, 0);
        assert(w.revived(0) == w);
        assert(w.resumed() == w);
        assert(w.revived(1) == w.revived(0).resumed().poll());
        lemma_poll(w);
    } else {
        let k = ((u - 1) / (c as int)) as nat;
        assert(k * c <= u - 1 && u - 1 < k * c + c && k >= 1) by (nonlinear_arith)
            requires
                k == (u - 1) / (c as int),
                c >= 1,
                u > c,
        ;
        assert((k + 1) * c == k * c + c) by (nonlinear_arith);
        lemma_polls_needed(u, c, k);
        if polls == 0 {
            assert(w.revived(0) == w);
        } else if polls <= k {
            assert(polls * c <= k * c) by (nonlinear_arith)
                requires
                    polls <= k,
                    c >= 1,
            ;
            lemma_revived_short(w, polls);
        } else if polls == n {
            lemma_revived_short(w, k);
            assert(w.revived(polls) == w.revived(k).resumed().poll());
            lemma_poll(w.revived(k).resumed());
        }
    }
}

/// What a dedicated thread has to itself: the future it drives and the
/// execution context it set up for it.
pub struct Thread {
    pub script: ScriptState,
    pub ctx: ContextState,
}

impl Thread {
    pub open spec fn wf(self) -> bool {
        self.script.wf() && !self.script.holds_guard() && self.ctx.wf()
    }

    /// The thread as one poll leaves it.
    pub open spec fn of(w: World) -> Thread {
        Thread { script: w.script, ctx: w.ctx }
    }

    /// The thread in front of the resource, between two polls.
    pub open spec fn world(self, ledger: Seq<Holder>) -> World {
        World { script: self.script, held: None, ctx: self.ctx, ledger }
    }
}

/// Two dedicated threads at work on one shared resource.
pub struct Threads {
    pub a: Thread,
    pub b: Thread,
    pub ledger: Seq<Holder>,
}

impl Threads {
    pub open spec fn wf(self) -> bool {
        self.a.wf() && self.b.wf() && ledger_wf(self.ledger)
    }

    /// One turn of one thread, of `a` if `first` is set and of `b` if not:
    /// the thread resumes its context and polls its future.
    pub open spec fn turn(self, first: bool) -> Threads {
        if first {
            let w = self.a.world(self.ledger).resumed().poll();
            Threads { a: Thread::of(w), ledger: w.ledger, ..self }
        } else {
            let w = self.b.world(self.ledger).resumed().poll();
            Threads { b: Thread::of(w), ledger: w.ledger, ..self }
        }
    }

    /// The threads after they took turns in the order that `schedule`
    /// gives.
    pub open spec fn interleaved(self, schedule: Seq<bool>) -> Threads
        decreases schedule.len(),
    {
        if schedule.len() == 0 {
            self
        } else {
            self.interleaved(schedule.drop_last()).turn(schedule.last())
        }
    }
}

/// The number of turns that `schedule` gives to the thread `first`.
pub open spec fn turns_of(schedule: Seq<bool>, first: bool) -> nat
    decreases schedule.len(),
{
    if schedule.len() == 0 {
        0
    } else {
        turns_of(schedule.drop_last(), first) + if schedule.last() == first {
            1nat
        } else {
            0nat
        }
    }
}

/// Polls with resumptions keep a world well formed and between polls, and
/// leave the resource as open to readers as it was.
pub proof fn lemma_revived(w: World, n: nat)
    requires
        w.wf(),
        w.held is None,
    ensures
        w.revived(n).wf(),
        w.revived(n).held is None,
        can_read(w.revived(n).ledger) == can_read(w.ledger),
    decreases n,
{
    if n > 0 {
        lemma_revived(w, (n - 1) as nat);
        lemma_poll(w.revived((n - 1) as nat).resumed());
    }
}

/// Two dedicated threads do not see each other. However their turns are
/// interleaved, each thread's future and budget end up exactly as if the
/// thread had taken its turns with nobody else at work: the other thread's
/// budget, its suspensions and its progress make no difference.
pub proof fn lemma_isolation(threads: Threads, schedule: Seq<bool>)
    requires
        threads.wf(),
    ensures
        threads.interleaved(schedule).wf(),
        can_read(threads.interleaved(schedule).ledger) == can_read(threads.ledger),
        threads.interleaved(schedule).a == Thread::of(
            threads.a.world(threads.ledger).revived(turns_of(schedule, true)),
        ),
        threads.interleaved(schedule).b == Thread::of(
            threads.b.world(threads.ledger).revived(turns_of(schedule, false)),
        ),
    decreases schedule.len(),
{
    if schedule.len() > 0 {
        let before = threads.interleaved(schedule.drop_last());
        lemma_isolation(threads, schedule.drop_last());
        let na = turns_of(schedule.drop_last(), true);
        let nb = turns_of(schedule.drop_last(), false);
        lemma_revived(threads.a.world(threads.ledger), na);
        lemma_revived(threads.b.world(threads.ledger), nb);
        if schedule.last() {
            lemma_poll(before.a.world(before.ledger).resumed());
            lemma_poll(threads.a.world(threads.ledger).revived(na).resumed());
        } else {
            lemma_poll(before.b.world(before.ledger).resumed());
            lemma_poll(threads.b.world(threads.ledger).revived(nb).resumed());
        }
    }
}

} // verus!
