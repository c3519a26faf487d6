//! The cooperative budget of an execution context.
//!
//! Every budget-consuming step charges one unit against the context it runs
//! in. A step that finds the counter at zero must yield, and only the poll
//! loop that owns the context refills the counter when it resumes the work.

use vstd::prelude::*;

verus! {

/// Why a unit of work handed control back instead of finishing.
#[derive(Clone, Copy, Debug, PartialEq, Eq, Structural)]
pub enum Suspension {
    /// The budget of the execution context reached zero.
    BudgetExhausted,
    /// The shared resource is held in a conflicting mode.
    Contended,
}

/// What one poll of a suspension-capable step reports.
#[derive(Clone, Copy, Debug, PartialEq, Eq, Structural)]
pub enum Poll {
    Ready,
    Pending(Suspension),
}

/// The poll loop that resumes an execution context from the outside, and is
/// therefore the only party entitled to refill its budget.
#[derive(Clone, Copy, Debug, PartialEq, Eq, Structural)]
pub enum Owner {
    /// A worker slot of the worker-pool scheduler.
    WorkerPool,
    /// The loop that a dedicated thread runs for one future.
    DedicatedThread,
}

/// Something that happens to an execution context.
#[derive(Clone, Copy, Debug, PartialEq, Eq, Structural)]
pub enum ContextEvent {
    /// A budget-consuming step is attempted.
    Consume,
    /// The given poll loop resumes the context.
    Resume(Owner),
}

/// The mathematical state of an execution context.
pub struct ContextState {
    pub owner: Owner,
    pub remaining: nat,
    pub capacity: nat,
}

impl ContextState {
    pub open spec fn wf(self) -> bool {
        self.remaining <= self.capacity
    }

    /// A context whose budget has just been filled.
    pub open spec fn fresh(owner: Owner, capacity: nat) -> Self {
        ContextState { owner, remaining: capacity, capacity }
    }

    pub open spec fn exhausted(self) -> bool {
        self.remaining == 0
    }

    /// One budget-consuming step: a unit is charged while any is left.
    pub open spec fn consume(self) -> Self {
        if self.remaining > 0 {
            ContextState { remaining: (self.remaining - 1) as nat, ..self }
        } else {
            self
        }
    }

    /// What the step reports: it yields exactly when nothing is left.
    pub open spec fn consume_result(self) -> Poll {
        if self.remaining > 0 {
            Poll::Ready
        } else {
            Poll::Pending(Suspension::BudgetExhausted)
        }
    }

    /// `n` units charged at once; `n` must not exceed what is left.
    pub open spec fn charge(self, n: nat) -> Self {
        ContextState { remaining: (self.remaining - n) as nat, ..self }
    }

    /// A resumption by `by`: the owner refills the budget, nobody else does.
    pub open spec fn resume(self, by: Owner) -> Self {
        if by == self.owner {
            ContextState { remaining: self.capacity, ..self }
        } else {
            self
        }
    }

    pub open spec fn apply(self, event: ContextEvent) -> Self {
        match event {
            ContextEvent::Consume => self.consume(),
            ContextEvent::Resume(by) => self.resume(by),
        }
    }

    /// The state after a sequence of events, oldest first.
    pub open spec fn replay(self, events: Seq<ContextEvent>) -> Self
        decreases events.len(),
    {
        if events.len() == 0 {
            self
        } else {
            self.replay(events.drop_last()).apply(events.last())
        }
    }

    /// Whether `event` is a resumption by the owner of this context.
    pub open spec fn is_resumption(self, event: ContextEvent) -> bool {
        event == ContextEvent::Resume(self.owner)
    }
}

/// The ambient identity that budget-consuming steps charge against: who owns
/// the budget, how much of it is left, and what a resumption refills it to.
#[derive(Clone, Copy, Debug)]
pub struct ExecutionContext {
    owner: Owner,
    remaining: u64,
    capacity: u64,
}

impl View for ExecutionContext {
    type V = ContextState;

    closed spec fn view(&self) -> ContextState {
        ContextState {
            owner: self.owner,
            remaining: self.remaining as nat,
            capacity: self.capacity as nat,
        }
    }
}

impl ExecutionContext {
    /// The invariant of every context: the counter never exceeds what a
    /// resumption refills it to.
    pub closed spec fn wf(&self) -> bool {
        self.remaining <= self.capacity
    }

    pub proof fn lemma_wf(&self)
        requires
            self.wf(),
        ensures
            self@.wf(),
            self@.capacity <= u64::MAX,
    {
    }

    /// A context owned by `owner` whose budget starts full.
    pub fn new(owner: Owner, capacity: u64) -> (ctx: ExecutionContext)
        ensures
            ctx.wf(),
            ctx@ == ContextState::fresh(owner, capacity as nat),
    {
        ExecutionContext { owner, remaining: capacity, capacity }
    }

    pub fn owner(&self) -> (owner: Owner)
        ensures
            owner == self@.owner,
    {
        self.owner
    }

    pub fn remaining(&self) -> (remaining: u64)
        ensures
            remaining == self@.remaining,
    {
        self.remaining
    }

    pub fn capacity(&self) -> (capacity: u64)
        ensures
            capacity == self@.capacity,
    {
        self.capacity
    }

    /// A budget-consuming suspension point. While budget is left, one unit is
    /// charged and the caller goes on at once; at zero nothing is charged and
    /// the caller must yield to the owner of the context.
    pub fn consume_unit(&mut self) -> (poll: Poll)
        requires
            old(self).wf(),
        ensures
            final(self).wf(),
            final(self)@ == old(self)@.consume(),
            poll == old(self)@.consume_result(),
    {
        if self.remaining > 0 {
            self.remaining = self.remaining - 1;
            Poll::Ready
        } else {
            Poll::Pending(Suspension::BudgetExhausted)
        }
    }

    /// The poll loop `by` takes the context up again. The budget is refilled
    /// to its full value if `by` owns the context, and is left as it is
    /// otherwise; the result says which.
    pub fn resume(&mut self, by: Owner) -> (refilled: bool)
        requires
            old(self).wf(),
        ensures
            final(self).wf(),
            final(self)@ == old(self)@.resume(by),
            refilled <==> by == old(self)@.owner,
    {
        if by == self.owner {
            self.remaining = self.capacity;
            true
        } else {
            false
        }
    }
}

/// Between two resumptions by its owner the budget never grows: whatever
/// else happens to the context, the counter afterwards is at most what it
/// was, and neither the owner nor the refill value changes.
pub proof fn lemma_budget_non_increasing(ctx: ContextState, events: Seq<ContextEvent>)
    requires
        ctx.wf(),
        forall|i: int| 0 <= i < events.len() ==> !ctx.is_resumption(#[trigger] events[i]),
    ensures
        ctx.replay(events).remaining <= ctx.remaining,
        ctx.replay(events).owner == ctx.owner,
        ctx.replay(events).capacity == ctx.capacity,
    decreases events.len(),
{
    if events.len() > 0 {
        lemma_budget_non_increasing(ctx, events.drop_last());
    }
}

/// A resumption by the owner sets the budget to exactly the refill value,
/// whatever it was before, and a second refill changes nothing further.
pub proof fn lemma_resumption_refills(ctx: ContextState, events: Seq<ContextEvent>)
    requires
        ctx.wf(),
        events.len() > 0,
        ctx.is_resumption(events.last()),
    ensures
        ctx.replay(events).remaining == ctx.capacity,
        ctx.replay(events).wf(),
        ctx.replay(events).resume(ctx.owner) == ctx.replay(events),
    decreases events.len(),
{
    lemma_replay_keeps_identity(ctx, events.drop_last());
}

/// No event changes who owns a context or what its budget is refilled to,
/// and none takes the counter above the refill value.
pub proof fn lemma_replay_keeps_identity(ctx: ContextState, events: Seq<ContextEvent>)
    requires
        ctx.wf(),
    ensures
        ctx.replay(events).wf(),
        ctx.replay(events).owner == ctx.owner,
        ctx.replay(events).capacity == ctx.capacity,
    decreases events.len(),
{
    if events.len() > 0 {
        lemma_replay_keeps_identity(ctx, events.drop_last());
    }
}

} // verus!
