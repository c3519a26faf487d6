//! Polling the scenario's future against a budget and the shared resource.
//!
//! One poll performs the actions of the script one after the other until an
//! action has to suspend or the script is at its end. What a poll does is
//! defined step by step and also given in closed form; the two are proved
//! to agree.

use vstd::prelude::*;
use crate::budget::{ContextState, ExecutionContext, Poll, Suspension};
use crate::resource::{
    after_release,
    can_read,
    ledger_wf,
    lemma_admit_reader,
    lemma_reader_excludes_writer,
    lemma_reader_leaves,
    readers_in,
    writer_in,
    Holder,
    ReadGuard,
    SharedResource,
};
use crate::script::{
    lemma_next,
    lemma_reports_next,
    reports_between,
    reports_until,
    Action,
    Progress,
    Script,
    ScriptState,
    Stage,
};

verus! {

/// Everything that a poll reads or changes: the future, the guard it holds,
/// the execution context it charges and the ledger of the shared resource.
pub struct World {
    pub script: ScriptState,
    pub held: Option<nat>,
    pub ctx: ContextState,
    pub ledger: Seq<Holder>,
}

impl World {
    pub open spec fn wf(self) -> bool {
        &&& self.script.wf()
        &&& self.ctx.wf()
        &&& ledger_wf(self.ledger)
        &&& self.script.holds_guard() <==> self.held is Some
        &&& match self.held {
            Some(id) => id < self.ledger.len() && self.ledger[id as int] == Holder::Reader,
            None => true,
        }
    }

    /// How the poll ends if it ends at this point: the script is at its end,
    /// or the due action cannot be performed now.
    pub open spec fn verdict(self) -> Option<Poll> {
        match self.script.action() {
            Action::Finish => Some(Poll::Ready),
            Action::AcquireRead => if can_read(self.ledger) {
                None
            } else {
                Some(Poll::Pending(Suspension::Contended))
            },
            Action::ConsumeUnit => if self.ctx.exhausted() {
                Some(Poll::Pending(Suspension::BudgetExhausted))
            } else {
                None
            },
            _ => None,
        }
    }

    /// The ledger once the guard that the future holds, if any, is given
    /// back.
    pub open spec fn settled_ledger(self) -> Seq<Holder> {
        match self.held {
            Some(id) => after_release(self.ledger, id, Holder::Reader),
            None => self.ledger,
        }
    }

    /// The due action performed.
    pub open spec fn step(self) -> World {
        match self.script.action() {
            Action::Report(_) => World { script: self.script.next(), ..self },
            Action::AcquireRead => World {
                script: self.script.next(),
                held: Some(self.ledger.len()),
                ledger: self.ledger.push(Holder::Reader),
                ..self
            },
            Action::ReleaseRead => World {
                script: self.script.next(),
                held: None,
                ledger: self.settled_ledger(),
                ..self
            },
            Action::ConsumeUnit => World {
                script: self.script.next(),
                ctx: self.ctx.consume(),
                ..self
            },
            Action::Finish => self,
        }
    }

    /// One poll: the actions are performed in turn until one ends the poll.
    pub open spec fn poll(self) -> World
        decreases self.script.weight(),
        when self.script.wf()
    {
        if self.verdict() is Some {
            self
        } else {
            self.step().poll()
        }
    }

    /// The poll stops before the first acquisition: a writer holds the
    /// resource.
    pub open spec fn waits_first(self) -> bool {
        !can_read(self.ledger) && !self.script.first_acquired()
    }

    /// The units of budget that one poll consumes.
    pub open spec fn units_now(self) -> nat {
        if self.waits_first() {
            0
        } else if self.script.units_left() <= self.ctx.remaining {
            self.script.units_left()
        } else {
            self.ctx.remaining
        }
    }

    /// The poll stops in the consumption of units: more are left to consume
    /// than the budget holds.
    pub open spec fn starves(self) -> bool {
        !self.waits_first() && self.script.units_left() > self.ctx.remaining
    }

    /// The poll stops before the second acquisition: a writer holds the
    /// resource.
    pub open spec fn waits_second(self) -> bool {
        !self.waits_first() && !self.starves() && !can_read(self.ledger)
            && !self.script.second_acquired()
    }

    /// What one poll reports.
    pub open spec fn outcome(self) -> Poll {
        if self.waits_first() || self.waits_second() {
            Poll::Pending(Suspension::Contended)
        } else if self.starves() {
            Poll::Pending(Suspension::BudgetExhausted)
        } else {
            Poll::Ready
        }
    }

    /// The stage at which one poll leaves the future.
    pub open spec fn resting_stage(self) -> Stage {
        if self.waits_first() {
            Stage::AcquireFirst
        } else if self.starves() {
            Stage::Consume
        } else if self.waits_second() {
            Stage::AcquireSecond
        } else {
            Stage::Finished
        }
    }

    /// The number of guards that one poll acquires, all of which it gives
    /// back before it ends.
    pub open spec fn guards_taken(self) -> nat {
        (if !self.script.first_acquired() && !self.waits_first() {
            1nat
        } else {
            0nat
        }) + (if !self.script.second_acquired() && self.resting_stage() == Stage::Finished {
            1nat
        } else {
            0nat
        })
    }

    /// The result of one poll in closed form.
    pub open spec fn polled(self) -> World {
        World {
            script: ScriptState {
                stage: self.resting_stage(),
                consumed: self.script.consumed + self.units_now(),
                total: self.script.total,
            },
            held: None,
            ctx: self.ctx.charge(self.units_now()),
            ledger: self.settled_ledger() + Seq::new(
                self.guards_taken(),
                |i: int| Holder::Released,
            ),
        }
    }
}

/// One action of a poll that goes on keeps the world well formed, leaves
/// the resource as open to readers as it was, and lowers the weight of the
/// script.
pub proof fn lemma_step(w: World)
    requires
        w.wf(),
        w.verdict() is None,
    ensures
        w.step().wf(),
        w.step().script.weight() < w.script.weight(),
        can_read(w.step().ledger) == can_read(w.ledger),
        w.held is Some ==> can_read(w.ledger),
{
    lemma_next(w.script);
    if let Some(id) = w.held {
        lemma_reader_excludes_writer(w.ledger, id as int);
    }
    match w.script.action() {
        Action::AcquireRead => {
            lemma_admit_reader(w.ledger);
        },
        Action::ReleaseRead => {
            lemma_reader_leaves(w.ledger, w.held.unwrap() as int);
        },
        _ => {},
    }
}

/// A poll does what the closed form says: where it leaves the future, how
/// many units it charges, what it does to the ledger and how it ends.
pub proof fn lemma_poll(w: World)
    requires
        w.wf(),
    ensures
        w.poll() == w.polled(),
        w.polled().wf(),
        w.polled().verdict() == Some(w.outcome()),
        can_read(w.polled().ledger) == can_read(w.ledger),
    decreases w.script.weight(),
{
    lemma_next(w.script);
    if let Some(id) = w.held {
        lemma_reader_excludes_writer(w.ledger, id as int);
    }
    if w.verdict() is Some {
        assert(w.polled().ledger =~= w.ledger);
    } else {
        let v = w.step();
        lemma_step(w);
        lemma_poll(v);
        assert(v.polled().script == w.polled().script);
        assert(v.polled().ctx == w.polled().ctx);
        assert(v.polled().ledger =~= w.polled().ledger);
    }
}

/// A poll leaves the resource as it found it: the same holders are
/// recorded, and the guards that the poll took are recorded as given back.
pub proof fn lemma_poll_keeps_holders(w: World)
    requires
        w.wf(),
        w.held is None,
    ensures
        readers_in(w.polled().ledger) == readers_in(w.ledger),
        writer_in(w.polled().ledger) == writer_in(w.ledger),
        w.polled().ledger.len() == w.ledger.len() + w.guards_taken(),
        forall|i: int| 0 <= i < w.ledger.len() ==> w.polled().ledger[i] == w.ledger[i],
        forall|i: int|
            w.ledger.len() <= i < w.polled().ledger.len() ==> w.polled().ledger[i]
                == Holder::Released,
{
    lemma_released_tail(w.ledger, w.guards_taken());
}

/// Entries of guards that were given back add no holder.
pub proof fn lemma_released_tail(ledger: Seq<Holder>, n: nat)
    ensures
        readers_in(ledger + Seq::new(n, |i: int| Holder::Released)) == readers_in(ledger),
        writer_in(ledger + Seq::new(n, |i: int| Holder::Released)) == writer_in(ledger),
    decreases n,
{
    let tail = Seq::new(n, |i: int| Holder::Released);
    let all = ledger + tail;
    if n == 0 {
        assert(all =~= ledger);
    } else {
        let shorter = ledger + Seq::new((n - 1) as nat, |i: int| Holder::Released);
        lemma_released_tail(ledger, (n - 1) as nat);
        assert(all.drop_last() =~= shorter);
        if writer_in(all) {
            let i = choose|i: int| 0 <= i < all.len() && all[i] == Holder::Writer;
            assert(ledger[i] == Holder::Writer);
        }
        if writer_in(ledger) {
            let i = choose|i: int| 0 <= i < ledger.len() && ledger[i] == Holder::Writer;
            assert(all[i] == Holder::Writer);
        }
    }
}

/// The scenario's future as the model runs it: the script, and the guard
/// that the future holds while a poll is under way.
#[derive(Debug)]
pub struct ScenarioFuture {
    script: Script,
    guard: Option<ReadGuard>,
}

impl View for ScenarioFuture {
    type V = ScriptState;

    closed spec fn view(&self) -> ScriptState {
        self.script@
    }
}

impl ScenarioFuture {
    /// The invariant of a future between polls: the script is well formed and
    /// no guard is held.
    pub closed spec fn wf(&self) -> bool {
        &&& self.script.wf()
        &&& !self.script@.holds_guard()
        &&& self.guard is None
    }

    pub proof fn lemma_wf(&self)
        requires
            self.wf(),
        ensures
            self@.wf(),
            !self@.holds_guard(),
            self@.total <= u64::MAX,
    {
        self.script.lemma_wf();
    }

    /// The world that a poll of this future in `ctx` and on `res` starts
    /// from.
    pub open spec fn world(&self, ctx: &ExecutionContext, res: &SharedResource) -> World {
        World { script: self@, held: None, ctx: ctx@, ledger: res@ }
    }

    /// A future at its start that is to consume `total` units of budget.
    pub fn new(total: u64) -> (future: ScenarioFuture)
        ensures
            future.wf(),
            future@ == ScriptState::start(total as nat),
    {
        ScenarioFuture { script: Script::new(total), guard: None }
    }

    /// The point that the future has reached.
    pub fn script(&self) -> (script: Script)
        requires
            self.wf(),
        ensures
            script.wf(),
            script@ == self@,
    {
        self.script
    }

    pub fn is_finished(&self) -> (finished: bool)
        ensures
            finished == self@.finished(),
    {
        self.script.is_finished()
    }

    /// Polls the future once in the execution context `ctx`. The actions of
    /// the script are performed in turn, reports going to `log`, until the
    /// script is at its end, the budget of `ctx` does not cover the next unit,
    /// or a writer keeps the future out of `res`. A guard that the poll takes
    /// is given back before the poll ends.
    pub fn poll(
        &mut self,
        ctx: &mut ExecutionContext,
        res: &mut SharedResource,
        log: &mut Vec<Progress>,
    ) -> (poll: Poll)
        requires
            old(self).wf(),
            old(ctx).wf(),
            old(res).wf(),
        ensures
            final(self).wf(),
            final(ctx).wf(),
            final(res).wf(),
            final(self).world(final(ctx), final(res)) == old(self).world(old(ctx), old(res)).poll(),
            final(self).world(final(ctx), final(res)) == old(self).world(
                old(ctx),
                old(res),
            ).polled(),
            poll == old(self).world(old(ctx), old(res)).outcome(),
            reports_until(old(self)@).is_prefix_of(reports_until(final(self)@)),
            final(log)@ == old(log)@ + reports_between(old(self)@, final(self)@),
    {
        let ghost start = self.world(ctx, res);
        let ghost first = self@;
        let ghost reported = log@;
        proof {
            self.script.lemma_wf();
            ctx.lemma_wf();
            res.lemma_wf();
            lemma_poll(start);
            assert(log@ =~= reported + reports_between(first, first));
        }
        loop
            invariant
                self.script.wf(),
                ctx.wf(),
                res.wf(),
                start == old(self).world(old(ctx), old(res)),
                first == old(self)@,
                reported == old(log)@,
                start.wf(),
                start.poll() == start.polled(),
                start.polled().verdict() == Some(start.outcome()),
                start.polled().wf(),
                (World {
                    script: self.script@,
                    held: match self.guard {
                        Some(g) => Some(g@),
                        None => None,
                    },
                    ctx: ctx@,
                    ledger: res@,
                }).wf(),
                (World {
                    script: self.script@,
                    held: match self.guard {
                        Some(g) => Some(g@),
                        None => None,
                    },
                    ctx: ctx@,
                    ledger: res@,
                }).poll() == start.poll(),
                reports_until(first).is_prefix_of(reports_until(self.script@)),
                log@ == reported + reports_between(first, self.script@),
            decreases self.script@.weight(),
        {
            let ghost now = World {
                script: self.script@,
                held: match self.guard {
                    Some(g) => Some(g@),
                    None => None,
                },
                ctx: ctx@,
                ledger: res@,
            };
            let ghost before = log@;
            proof {
                lemma_next(now.script);
                lemma_reports_next(now.script);
                if now.verdict() is None {
                    lemma_step(now);
                }
            }
            match self.script.action() {
                Action::Finish => {
                    return Poll::Ready;
                },
                Action::Report(progress) => {
                    log.push(progress);
                    self.script.advance();
                    proof {
                        assert(log@ =~= reported + reports_between(first, self.script@));
                    }
                },
                Action::AcquireRead => {
                    match res.acquire_read() {
                        Some(guard) => {
                            self.guard = Some(guard);
                            self.script.advance();
                        },
                        None => {
                            return Poll::Pending(Suspension::Contended);
                        },
                    }
                },
                Action::ReleaseRead => {
                    if let Some(guard) = self.guard {
                        let _ = res.release_read(guard);
                    }
                    self.guard = None;
                    self.script.advance();
                },
                Action::ConsumeUnit => {
                    match ctx.consume_unit() {
                        Poll::Ready => {
                            self.script.advance();
                        },
                        Poll::Pending(reason) => {
                            return Poll::Pending(reason);
                        },
                    }
                },
            }
        }
    }
}

} // verus!
