//! The worker-pool scheduler: a fixed number of worker slots that take
//! ready tasks in turn.
//!
//! A worker takes the task at the head of the queue and runs its code until
//! the code completes or yields. A task that yields has its budget refilled
//! and goes back to the end of the queue. Code that runs a driver does not
//! yield: it returns when the driver does, and where the driver stalls the
//! worker slot is taken for good.

use vstd::prelude::*;
use crate::budget::{ContextState, ExecutionContext, Owner, Poll, Suspension};
use crate::driver::{
    dedicated_drive,
    exit_reports,
    nested_drive,
    run_to_completion_nested,
    run_to_completion_on_new_thread,
    DriveOutcome,
};
use crate::future::{lemma_poll, ScenarioFuture, World};
use crate::resource::{ledger_wf, Holder, SharedResource};
use crate::script::{reports_between, Progress, ScriptState, Strategy};

verus! {

/// What the code of a task does with the scenario's future.
#[derive(Clone, Copy, Debug, PartialEq, Eq, Structural)]
pub enum Body {
    /// The future is the task's own continuation: the scheduler polls it.
    Inline,
    /// The code hands the future to a driver and waits for it to return.
    Driven(Strategy),
}

/// What the scheduler records about a task that it ran.
#[derive(Clone, Copy, Debug, PartialEq, Eq, Structural)]
pub enum Event {
    /// The continuation of the task completed; the task was discarded.
    Completed { task: u64 },
    /// The continuation of the task yielded for the given reason.
    Suspended { task: u64, reason: Suspension },
    /// The code of the task ran a driver, which ended as given. A driver
    /// that stalled keeps the worker slot.
    Drove { task: u64, outcome: DriveOutcome },
}

/// The mathematical state of a task.
pub struct TaskState {
    pub id: u64,
    pub body: Body,
    pub ctx: ContextState,
    pub script: ScriptState,
}

impl TaskState {
    pub open spec fn wf(self) -> bool {
        &&& self.script.wf()
        &&& !self.script.holds_guard()
        &&& self.ctx.wf()
        &&& self.ctx.owner == Owner::WorkerPool
    }

    /// A task as it stands in the queue: its budget is full.
    pub open spec fn ready(self, capacity: nat) -> bool {
        self.wf() && self.ctx == ContextState::fresh(Owner::WorkerPool, capacity)
    }

    /// The task in front of the resource when a worker takes it up.
    pub open spec fn world(self, ledger: Seq<Holder>) -> World {
        World { script: self.script, held: None, ctx: self.ctx, ledger }
    }

    /// The weight of the task in the queue.
    pub open spec fn weight(self) -> nat {
        self.script.weight() + 1
    }
}

/// The mathematical state of the scheduler.
pub struct SchedulerState {
    /// The value that a resumption refills a budget to.
    pub capacity: nat,
    /// The number of worker slots.
    pub workers: nat,
    /// The ready tasks, the next to run first.
    pub queue: Seq<TaskState>,
    /// The tasks whose code never returned; each keeps a worker slot.
    pub blocked: Seq<TaskState>,
    /// The tasks that yielded and wait to be woken.
    pub parked: Seq<TaskState>,
    /// What happened so far, oldest first.
    pub journal: Seq<Event>,
}

impl SchedulerState {
    pub open spec fn wf(self) -> bool {
        &&& forall|i: int|
            0 <= i < self.queue.len() ==> (#[trigger] self.queue[i]).ready(self.capacity)
        &&& forall|i: int| 0 <= i < self.blocked.len() ==> (#[trigger] self.blocked[i]).wf()
        &&& forall|i: int|
            0 <= i < self.parked.len() ==> (#[trigger] self.parked[i]).ready(self.capacity)
        &&& self.blocked.len() <= self.workers
    }

    pub open spec fn empty(workers: nat, capacity: nat) -> SchedulerState {
        SchedulerState {
            capacity,
            workers,
            queue: Seq::empty(),
            blocked: Seq::empty(),
            parked: Seq::empty(),
            journal: Seq::empty(),
        }
    }

    /// The parked tasks are woken: they join the end of the queue in the
    /// order in which they were parked.
    pub open spec fn wake_parked(self) -> SchedulerState {
        SchedulerState { queue: self.queue + self.parked, parked: Seq::empty(), ..self }
    }

    /// The scheduler takes a task on: the task joins the queue with a full
    /// budget.
    pub open spec fn schedule(self, task: TaskState) -> SchedulerState {
        SchedulerState {
            queue: self.queue.push(
                TaskState { ctx: ContextState::fresh(Owner::WorkerPool, self.capacity), ..task },
            ),
            ..self
        }
    }
}

/// The weight of a queue: what its tasks weigh together.
pub open spec fn queue_weight(queue: Seq<TaskState>) -> nat
    decreases queue.len(),
{
    if queue.len() == 0 {
        0
    } else {
        queue_weight(queue.drop_last()) + queue.last().weight()
    }
}

/// The scheduler together with what its tasks share: the resource and the
/// stream of progress reports.
pub struct System {
    pub sched: SchedulerState,
    pub ledger: Seq<Holder>,
    pub log: Seq<Progress>,
}

impl System {
    pub open spec fn wf(self) -> bool {
        self.sched.wf() && ledger_wf(self.ledger)
    }

    /// Nothing more can happen: no task is ready, or no worker is free.
    pub open spec fn halted(self) -> bool {
        self.sched.queue.len() == 0 || self.sched.blocked.len() >= self.sched.workers
    }

    /// What the next turn of a worker records, if there is such a turn.
    pub open spec fn next_event(self) -> Option<Event> {
        if self.halted() {
            None
        } else {
            let task = self.sched.queue[0];
            let w = task.world(self.ledger);
            Some(
                match task.body {
                    Body::Inline => match w.outcome() {
                        Poll::Ready => Event::Completed { task: task.id },
                        Poll::Pending(reason) => Event::Suspended { task: task.id, reason },
                    },
                    Body::Driven(Strategy::Nested) => Event::Drove {
                        task: task.id,
                        outcome: nested_drive(w).outcome,
                    },
                    Body::Driven(Strategy::Dedicated) => Event::Drove {
                        task: task.id,
                        outcome: dedicated_drive(
                            task.script,
                            self.sched.capacity,
                            self.ledger,
                        ).outcome,
                    },
                },
            )
        }
    }

    /// One turn of a worker: the task at the head of the queue runs until
    /// its code completes or yields.
    pub open spec fn tick(self) -> System {
        if self.halted() {
            self
        } else {
            let task = self.sched.queue[0];
            let rest = self.sched.queue.drop_first();
            let journal = self.sched.journal.push(self.next_event().unwrap());
            let w = task.world(self.ledger);
            match task.body {
                Body::Inline => {
                    let p = w.polled();
                    let after = TaskState {
                        ctx: p.ctx.resume(Owner::WorkerPool),
                        script: p.script,
                        ..task
                    };
                    let log = self.log + reports_between(task.script, p.script);
                    if w.outcome() == Poll::Ready {
                        System {
                            sched: SchedulerState { queue: rest, journal, ..self.sched },
                            ledger: p.ledger,
                            log,
                        }
                    } else if w.outcome() == Poll::Pending(Suspension::BudgetExhausted)
                        && self.sched.capacity > 0 {
                        System {
                            sched: SchedulerState {
                                queue: rest.push(after),
                                journal,
                                ..self.sched
                            },
                            ledger: p.ledger,
                            log,
                        }
                    } else {
                        System {
                            sched: SchedulerState {
                                queue: rest,
                                parked: self.sched.parked.push(after),
                                journal,
                                ..self.sched
                            },
                            ledger: p.ledger,
                            log,
                        }
                    }
                },
                Body::Driven(strategy) => {
                    let d = match strategy {
                        Strategy::Nested => nested_drive(w),
                        Strategy::Dedicated => dedicated_drive(
                            task.script,
                            self.sched.capacity,
                            self.ledger,
                        ),
                    };
                    let ctx = match strategy {
                        Strategy::Nested => w.polled().ctx,
                        Strategy::Dedicated => task.ctx,
                    };
                    let after = TaskState { ctx, script: d.script, ..task };
                    let log = self.log.push(Progress::DriverEntered(strategy)) + reports_between(
                        task.script,
                        d.script,
                    ) + exit_reports(d.outcome, strategy);
                    if d.outcome.completed() {
                        System {
                            sched: SchedulerState { queue: rest, journal, ..self.sched },
                            ledger: d.ledger,
                            log,
                        }
                    } else {
                        System {
                            sched: SchedulerState {
                                queue: rest,
                                blocked: self.sched.blocked.push(after),
                                journal,
                                ..self.sched
                            },
                            ledger: d.ledger,
                            log,
                        }
                    }
                },
            }
        }
    }

    /// `n` turns in a row.
    pub open spec fn ticks(self, n: nat) -> System
        decreases n,
    {
        if n == 0 {
            self
        } else {
            self.ticks((n - 1) as nat).tick()
        }
    }
}

/// The weight of a queue is the weight of its head and of the rest.
pub proof fn lemma_queue_weight_head(queue: Seq<TaskState>)
    requires
        queue.len() > 0,
    ensures
        queue_weight(queue) == queue[0].weight() + queue_weight(queue.drop_first()),
    decreases queue.len(),
{
    if queue.len() == 1 {
        assert(queue.drop_last() =~= Seq::<TaskState>::empty());
        assert(queue.drop_first() =~= Seq::<TaskState>::empty());
    } else {
        lemma_queue_weight_head(queue.drop_last());
        assert(queue.drop_last().drop_first() =~= queue.drop_first().drop_last());
    }
}

/// Every turn that is taken lowers the weight of the queue: the task that
/// ran has left the queue, or has come back to it nearer to its end.
pub proof fn lemma_tick_progress(s: System)
    requires
        s.wf(),
        !s.halted(),
    ensures
        queue_weight(s.tick().sched.queue) < queue_weight(s.sched.queue),
{
    let task = s.sched.queue[0];
    let rest = s.sched.queue.drop_first();
    let w = task.world(s.ledger);
    lemma_queue_weight_head(s.sched.queue);
    lemma_poll(w);
    let after = TaskState {
        ctx: w.polled().ctx.resume(Owner::WorkerPool),
        script: w.polled().script,
        ..task
    };
    assert(rest.push(after).drop_last() =~= rest);
}

/// Turns add up: `m` turns and then `n` more are `m + n` turns.
pub proof fn lemma_ticks_split(s: System, m: nat, n: nat)
    ensures
        s.ticks(m + n) == s.ticks(m).ticks(n),
    decreases n,
{
    if n > 0 {
        lemma_ticks_split(s, m, (n - 1) as nat);
        assert(s.ticks(m + n) == s.ticks((m + n - 1) as nat).tick());
    }
}

/// A system that has halted stays as it is, however many more turns are
/// offered to it.
pub proof fn lemma_halted_stays(s: System, n: nat)
    requires
        s.halted(),
    ensures
        s.ticks(n) == s,
    decreases n,
{
    if n > 0 {
        lemma_halted_stays(s, (n - 1) as nat);
    }
}

/// A unit of schedulable work: the scenario's future, the code around it,
/// and the budget that the scheduler keeps for it.
#[derive(Debug)]
pub struct Task {
    id: u64,
    body: Body,
    ctx: ExecutionContext,
    future: ScenarioFuture,
}

impl View for Task {
    type V = TaskState;

    closed spec fn view(&self) -> TaskState {
        TaskState { id: self.id, body: self.body, ctx: self.ctx@, script: self.future@ }
    }
}

impl Task {
    pub closed spec fn wf(&self) -> bool {
        &&& self.ctx.wf()
        &&& self.future.wf()
        &&& self.ctx@.owner == Owner::WorkerPool
    }

    pub proof fn lemma_wf(&self)
        requires
            self.wf(),
        ensures
            self@.wf(),
    {
        self.ctx.lemma_wf();
        self.future.lemma_wf();
    }

    /// A task that is to run the scenario's future, with `total` units to
    /// consume, in the way that `body` says. Its budget is empty until a
    /// scheduler takes the task on.
    pub fn new(id: u64, body: Body, total: u64) -> (task: Task)
        ensures
            task.wf(),
            task@ == (TaskState {
                id,
                body,
                ctx: ContextState::fresh(Owner::WorkerPool, 0),
                script: ScriptState::start(total as nat),
            }),
    {
        Task {
            id,
            body,
            ctx: ExecutionContext::new(Owner::WorkerPool, 0),
            future: ScenarioFuture::new(total),
        }
    }

    pub fn id(&self) -> (id: u64)
        ensures
            id == self@.id,
    {
        self.id
    }

    pub fn body(&self) -> (body: Body)
        ensures
            body == self@.body,
    {
        self.body
    }

    /// The execution context that the task's code charges.
    pub fn context(&self) -> (ctx: &ExecutionContext)
        requires
            self.wf(),
        ensures
            ctx.wf(),
            ctx@ == self@.ctx,
    {
        &self.ctx
    }

    /// The future that the task runs.
    pub fn future(&self) -> (future: &ScenarioFuture)
        requires
            self.wf(),
        ensures
            future.wf(),
            future@ == self@.script,
    {
        &self.future
    }
}

/// The views of a list of tasks.
pub open spec fn task_states(tasks: Seq<Task>) -> Seq<TaskState> {
    tasks.map_values(|t: Task| t@)
}

/// The worker-pool scheduler.
#[derive(Debug)]
pub struct Scheduler {
    capacity: u64,
    workers: usize,
    queue: Vec<Task>,
    blocked: Vec<Task>,
    parked: Vec<Task>,
    journal: Vec<Event>,
}

impl View for Scheduler {
    type V = SchedulerState;

    closed spec fn view(&self) -> SchedulerState {
        SchedulerState {
            capacity: self.capacity as nat,
            workers: self.workers as nat,
            queue: task_states(self.queue@),
            blocked: task_states(self.blocked@),
            parked: task_states(self.parked@),
            journal: self.journal@,
        }
    }
}

impl Scheduler {
    pub closed spec fn wf(&self) -> bool {
        &&& forall|i: int|
            0 <= i < self.queue@.len() ==> (#[trigger] self.queue@[i]).wf() && self.queue@[i]@.ctx
                == ContextState::fresh(Owner::WorkerPool, self.capacity as nat)
        &&& forall|i: int| 0 <= i < self.blocked@.len() ==> (#[trigger] self.blocked@[i]).wf()
        &&& forall|i: int|
            0 <= i < self.parked@.len() ==> (#[trigger] self.parked@[i]).wf()
                && self.parked@[i]@.ctx == ContextState::fresh(
                Owner::WorkerPool,
                self.capacity as nat,
            )
        &&& self.blocked@.len() <= self.workers
    }

    pub proof fn lemma_wf(&self)
        requires
            self.wf(),
        ensures
            self@.wf(),
            self@.capacity <= u64::MAX,
    {
        assert forall|i: int| 0 <= i < self@.queue.len() implies (#[trigger] self@.queue[i]).ready(
            self@.capacity,
        ) by {
            self.queue@[i].lemma_wf();
        }
        assert forall|i: int| 0 <= i < self@.blocked.len() implies (
        #[trigger] self@.blocked[i]).wf() by {
            self.blocked@[i].lemma_wf();
        }
        assert forall|i: int| 0 <= i < self@.parked.len() implies (
        #[trigger] self@.parked[i]).ready(self@.capacity) by {
            self.parked@[i].lemma_wf();
        }
    }

    /// The scheduler and what its tasks share, as one state.
    pub open spec fn system(&self, res: &SharedResource, log: Seq<Progress>) -> System {
        System { sched: self@, ledger: res@, log }
    }

    /// A scheduler with `workers` worker slots and no task, which refills
    /// budgets to `capacity` units.
    pub fn new(workers: usize, capacity: u64) -> (sched: Scheduler)
        ensures
            sched.wf(),
            sched@ == SchedulerState::empty(workers as nat, capacity as nat),
    {
        let sched = Scheduler {
            capacity,
            workers,
            queue: Vec::new(),
            blocked: Vec::new(),
            parked: Vec::new(),
            journal: Vec::new(),
        };
        proof {
            assert(sched@.queue =~= Seq::<TaskState>::empty());
            assert(sched@.blocked =~= Seq::<TaskState>::empty());
            assert(sched@.parked =~= Seq::<TaskState>::empty());
        }
        sched
    }

    /// Takes `task` on: it joins the end of the queue with a full budget.
    pub fn schedule(&mut self, task: Task)
        requires
            old(self).wf(),
            task.wf(),
        ensures
            final(self).wf(),
            final(self)@ == old(self)@.schedule(task@),
    {
        let ghost given = task@;
        let mut task = task;
        task.ctx = ExecutionContext::new(Owner::WorkerPool, self.capacity);
        self.queue.push(task);
        proof {
            assert(self@.queue =~= old(self)@.schedule(given).queue);
        }
    }

    /// Wakes the parked tasks, as the release of the resource or a change of
    /// the configuration would: they join the end of the queue in the order
    /// in which they were parked.
    pub fn wake_parked(&mut self)
        requires
            old(self).wf(),
        ensures
            final(self).wf(),
            final(self)@ == old(self)@.wake_parked(),
    {
        self.queue.append(&mut self.parked);
        proof {
            assert(self@.queue =~= old(self)@.queue + old(self)@.parked);
            assert(self@.parked =~= Seq::<TaskState>::empty());
        }
    }

    /// What happened so far, oldest first.
    pub fn journal(&self) -> (journal: &Vec<Event>)
        ensures
            journal@ == self@.journal,
    {
        &self.journal
    }

    /// The tasks whose code never returned.
    pub fn blocked(&self) -> (blocked: &Vec<Task>)
        requires
            self.wf(),
        ensures
            task_states(blocked@) == self@.blocked,
            forall|i: int| 0 <= i < blocked@.len() ==> (#[trigger] blocked@[i]).wf(),
    {
        &self.blocked
    }

    /// The tasks that yielded and wait to be woken.
    pub fn parked(&self) -> (parked: &Vec<Task>)
        requires
            self.wf(),
        ensures
            task_states(parked@) == self@.parked,
            forall|i: int| 0 <= i < parked@.len() ==> (#[trigger] parked@[i]).wf(),
    {
        &self.parked
    }

    /// The number of ready tasks.
    pub fn ready(&self) -> (n: usize)
        ensures
            n == self@.queue.len(),
    {
        self.queue.len()
    }

    /// The number of worker slots that no stalled task keeps.
    pub fn free_workers(&self) -> (n: usize)
        requires
            self.wf(),
        ensures
            n == self@.workers - self@.blocked.len(),
    {
        self.workers - self.blocked.len()
    }

    /// One turn of a worker. The task at the head of the queue runs until its
    /// code completes or yields, and what happened is recorded and returned.
    /// An inline task that completed is discarded; one that yielded has the
    /// reason recorded and its budget refilled, and goes back to the end of
    /// the queue if a refill is all it waits for, and among the parked tasks
    /// if not. A task whose driver stalled keeps its worker slot. Nothing
    /// happens, and `None` is returned, when no task is ready or no worker
    /// slot is free.
    pub fn tick(&mut self, res: &mut SharedResource, log: &mut Vec<Progress>) -> (event: Option<
        Event,
    >)
        requires
            old(self).wf(),
            old(res).wf(),
        ensures
            final(self).wf(),
            final(res).wf(),
            final(self).system(final(res), final(log)@) == old(self).system(
                old(res),
                old(log)@,
            ).tick(),
            event == old(self).system(old(res), old(log)@).next_event(),
    {
        let ghost before = self.system(res, log@);
        proof {
            self.lemma_wf();
            res.lemma_wf();
        }
        if self.queue.len() == 0 || self.blocked.len() >= self.workers {
            return None;
        }
        let mut task = self.queue.remove(0);
        let ghost head = task@;
        let ghost world = head.world(res@);
        proof {
            task.lemma_wf();
            assert(head == before.sched.queue[0]);
            assert(task_states(self.queue@) =~= before.sched.queue.drop_first());
            lemma_poll(world);
        }
        match task.body {
            Body::Inline => {
                let poll = task.future.poll(&mut task.ctx, res, log);
                match poll {
                    Poll::Ready => {
                        let event = Event::Completed { task: task.id };
                        self.journal.push(event);
                        Some(event)
                    },
                    Poll::Pending(reason) => {
                        task.ctx.resume(Owner::WorkerPool);
                        let event = Event::Suspended { task: task.id, reason };
                        self.journal.push(event);
                        let requeue = match reason {
                            Suspension::BudgetExhausted => self.capacity > 0,
                            Suspension::Contended => false,
                        };
                        let ghost after = task@;
                        if requeue {
                            self.queue.push(task);
                            proof {
                                assert(task_states(self.queue@)
                                    =~= before.sched.queue.drop_first().push(after));
                            }
                        } else {
                            self.parked.push(task);
                            proof {
                                assert(task_states(self.parked@) =~= before.sched.parked.push(
                                    after,
                                ));
                            }
                        }
                        Some(event)
                    },
                }
            },
            Body::Driven(strategy) => {
                let outcome = match strategy {
                    Strategy::Nested => run_to_completion_nested(
                        &mut task.future,
                        &mut task.ctx,
                        res,
                        log,
                    ),
                    Strategy::Dedicated => run_to_completion_on_new_thread(
                        &mut task.future,
                        self.capacity,
                        res,
                        log,
                    ),
                };
                let event = Event::Drove { task: task.id, outcome };
                self.journal.push(event);
                if !outcome.is_completed() {
                    let ghost after = task@;
                    self.blocked.push(task);
                    proof {
                        assert(task_states(self.blocked@) =~= before.sched.blocked.push(after));
                    }
                }
                Some(event)
            },
        }
    }

    /// The worker loop: turns are taken until no task is ready or no worker
    /// slot is free. The system ends in the first halted state that a
    /// sequence of turns leads to.
    pub fn run(&mut self, res: &mut SharedResource, log: &mut Vec<Progress>)
        requires
            old(self).wf(),
            old(res).wf(),
        ensures
            final(self).wf(),
            final(res).wf(),
            final(self).system(final(res), final(log)@).halted(),
            exists|n: nat|
                {
                    &&& final(self).system(final(res), final(log)@) == (#[trigger] old(self).system(
                        old(res),
                        old(log)@,
                    ).ticks(n))
                    &&& forall|m: nat|
                        m < n ==> !(#[trigger] old(self).system(old(res), old(log)@).ticks(
                            m,
                        )).halted()
                },
    {
        let ghost start = self.system(res, log@);
        let ghost mut turns: nat = 0;
        loop
            invariant
                self.wf(),
                res.wf(),
                start == old(self).system(old(res), old(log)@),
                self.system(res, log@) == start.ticks(turns),
                forall|m: nat| m < turns ==> !(#[trigger] start.ticks(m)).halted(),
            decreases queue_weight(self@.queue),
        {
            let ghost before = self.system(res, log@);
            proof {
                self.lemma_wf();
                res.lemma_wf();
                if !before.halted() {
                    lemma_tick_progress(before);
                }
            }
            match self.tick(res, log) {
                None => {
                    return ;
                },
                Some(_) => {
                    proof {
                        turns = turns + 1;
                    }
                },
            }
        }
    }
}

} // verus!
