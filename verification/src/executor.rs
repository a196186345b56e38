//! The scheduling core of the task-driving executor.
//!
//! The executor is a state machine: submissions, fired resumption handles
//! and finished drives go in, and the units that a worker has to perform
//! come out. Threads, closures and suspended computations stay with the
//! caller; the decisions are made here.
//!
//! A task is created `Running`, because its first drive happens right at
//! submission. A drive that ends "not ready" parks the task as
//! `Suspended`; a drive that ends with a result removes the task. Only a
//! suspended task is handed out for another drive, so at most one drive
//! of a task is in progress at any time. A resumption that arrives while
//! a drive is in progress is remembered as `Woken` and leads to one more
//! drive after the current one.

use crate::prioritized::{is_ascending, lemma_push_keeps_ascending, spec_push, Prioritized};
use crate::priority_queue::PriorityQueue;
use crate::tenant::{Classification, TenantId};
use crate::utilization_sketch::{Share, Sketch, UtilizationSketch};
use std::collections::HashMap;
use vstd::prelude::*;

verus! {

broadcast use vstd::std_specs::hash::group_hash_axioms;

/// The identity of one in-flight task; never handed out twice.
#[derive(Debug, Clone, Copy, PartialEq, Eq, Structural, Hash)]
pub struct FutureId {
    pub id: u64,
}

/// A unit of work in the executor's queue.
#[derive(Debug)]
pub enum Work<F> {
    /// Tells one worker to terminate.
    ShutDown,
    /// A closure to run to completion.
    Work(F),
    /// A request to drive a task once.
    Poll(FutureId),
}

/// Where a registered task stands.
#[derive(Debug, Clone, Copy, PartialEq, Eq, Structural)]
pub enum TaskStatus {
    /// A drive is in progress.
    Running,
    /// A drive is in progress and a resumption arrived meanwhile.
    Woken,
    /// The last drive ended "not ready"; the task waits for a resumption.
    Suspended,
}

/// What the executor keeps of an in-flight task.
#[derive(Debug, Clone, Copy, PartialEq, Eq, Structural)]
pub struct Task {
    pub tenant_id: TenantId,
    pub classification: Classification,
    pub status: TaskStatus,
}

/// What a worker does next.
#[derive(Debug)]
pub enum Step<F> {
    /// The queue is empty: wait for a submission.
    Wait,
    /// A shutdown signal was dequeued: terminate.
    Exit,
    /// Run the closure.
    Run(F),
    /// Drive the task once, then report how the drive ended.
    Drive(FutureId),
    /// The dequeued unit needs no work: its task is gone or busy.
    Skip,
}

/// The resolution in which a share enters a priority.
pub const SHARE_SCALE: u32 = 1000;

/// The utilization that one enqueued unit is accounted with.
pub const UNIT_COST: u16 = 1;

/// The priority of a shutdown signal.
pub const SHUTDOWN_PRIORITY: u64 = 0;

/// The weight of a classification: work that is nearer to its end counts
/// more.
pub open spec fn class_weight(classification: Classification) -> int {
    match classification {
        Classification::Accept => 1,
        Classification::Read => 2,
        Classification::Compute => 3,
        Classification::Write => 4,
    }
}

/// The priority of work of a tenant with the given recent share: the
/// unused part of the share, weighted by the classification.
pub open spec fn spec_priority(share: Share, classification: Classification) -> int {
    class_weight(classification) * (SHARE_SCALE - share.scaled(SHARE_SCALE))
}

/// A tenant with the lower recent share gets at least the priority of one
/// with the higher share, for the same classification.
pub proof fn lemma_lower_share_higher_priority(a: Share, b: Share, classification: Classification)
    requires
        a.wf(),
        b.wf(),
        a.whole > 0,
        b.whole > 0,
        a.le(b),
    ensures
        spec_priority(a, classification) >= spec_priority(b, classification),
{
    let s = SHARE_SCALE as int;
    let x = a.part * s;
    let y = b.part * s;
    let w1 = a.whole as int;
    let w2 = b.whole as int;
    let q = x / w1;
    assert(q * w1 <= x) by (nonlinear_arith)
        requires
            q == x / w1,
            w1 > 0,
            x >= 0,
    ;
    assert(x * w2 <= y * w1) by (nonlinear_arith)
        requires
            a.part * w2 <= b.part * w1,
            x == a.part * s,
            y == b.part * s,
            s >= 0,
    ;
    assert(q * w2 <= y) by (nonlinear_arith)
        requires
            q * w1 <= x,
            x * w2 <= y * w1,
            w1 > 0,
            w2 > 0,
            q >= 0,
    ;
    assert(q <= y / w2) by (nonlinear_arith)
        requires
            q * w2 <= y,
            w2 > 0,
    ;
    let w = class_weight(classification);
    assert(w * (s - y / w2) <= w * (s - q)) by (nonlinear_arith)
        requires
            q <= y / w2,
            w >= 0,
    ;
}

/// Computes the priority for a share and a classification.
pub fn priority_of_share(share: Share, classification: Classification) -> (priority: u64)
    requires
        share.wf(),
    ensures
        priority == spec_priority(share, classification),
        priority <= 4 * SHARE_SCALE,
{
    let weight: u64 = match classification {
        Classification::Accept => 1,
        Classification::Read => 2,
        Classification::Compute => 3,
        Classification::Write => 4,
    };
    let used: u64 = share.parts_of(SHARE_SCALE);
    weight * (SHARE_SCALE as u64 - used)
}

/// The abstract state of the executor.
pub struct State<F> {
    /// The pending units in ascending priority: the last is served next.
    pub queue: Seq<Prioritized<Work<F>>>,
    /// The identity that the next task gets.
    pub next_id: u64,
    /// The registry of in-flight tasks.
    pub tasks: Map<u64, Task>,
    /// The utilization sketch.
    pub sketch: Sketch,
    /// The number of workers that serve the queue.
    pub workers: usize,
}

impl<F> State<F> {
    /// The state of an executor for `workers` workers that has seen no
    /// submission yet.
    pub open spec fn fresh(workers: usize) -> State<F> {
        State {
            queue: Seq::empty(),
            next_id: 0,
            tasks: Map::empty(),
            sketch: Sketch::fresh(),
            workers,
        }
    }

    /// The queue is ordered, the sketch is well-formed, and every
    /// registered identity was handed out before.
    pub open spec fn wf(self) -> bool {
        &&& is_ascending(self.queue)
        &&& self.sketch.wf()
        &&& forall|id: u64| #[trigger] self.tasks.contains_key(id) ==> id < self.next_id
    }

    /// The priority under which a unit of this tenant and classification
    /// is enqueued now: computed from the share after the unit was
    /// accounted.
    pub open spec fn priority_for(self, tenant_id: TenantId, classification: Classification) -> int {
        spec_priority(self.sketch.recorded(tenant_id, UNIT_COST).share(tenant_id), classification)
    }

    /// The state after the unit was accounted in the sketch.
    pub open spec fn charged(self, tenant_id: TenantId) -> State<F> {
        State { sketch: self.sketch.recorded(tenant_id, UNIT_COST), ..self }
    }

    /// The state after `work` was enqueued for a tenant and classification.
    pub open spec fn enqueued(
        self,
        work: Work<F>,
        tenant_id: TenantId,
        classification: Classification,
    ) -> State<F> {
        State {
            queue: spec_push(
                self.queue,
                Prioritized {
                    priority: self.priority_for(tenant_id, classification) as u64,
                    t: work,
                },
            ),
            ..self.charged(tenant_id)
        }
    }

    /// The state after a new task was registered for its first drive.
    pub open spec fn registered(self, tenant_id: TenantId, classification: Classification) -> State<F> {
        if self.next_id == u64::MAX {
            self
        } else {
            State {
                next_id: (self.next_id + 1) as u64,
                tasks: self.tasks.insert(
                    self.next_id,
                    Task { tenant_id, classification, status: TaskStatus::Running },
                ),
                ..self
            }
        }
    }

    /// Whether a drive of the task is in progress.
    pub open spec fn driving(self, id: FutureId) -> bool {
        self.tasks.contains_key(id.id) && !(self.tasks[id.id].status is Suspended)
    }

    /// Whether a request to drive the task is granted: the task is
    /// registered and no drive of it is in progress.
    pub open spec fn grants(self, id: FutureId) -> bool {
        self.tasks.contains_key(id.id) && self.tasks[id.id].status is Suspended
    }

    /// The state after the task got the status `status`.
    pub open spec fn with_status(self, id: FutureId, status: TaskStatus) -> State<F> {
        State { tasks: self.tasks.insert(id.id, Task { status, ..self.tasks[id.id] }), ..self }
    }

    /// The state after the resumption handle of the task fired: a request
    /// to drive it is enqueued under a fresh priority, unless the task is
    /// gone.
    pub open spec fn woken(self, id: FutureId) -> State<F> {
        if self.tasks.contains_key(id.id) {
            self.enqueued(
                Work::Poll(id),
                self.tasks[id.id].tenant_id,
                self.tasks[id.id].classification,
            )
        } else {
            self
        }
    }

    /// The state after a request to drive the task was looked at.
    pub open spec fn polled(self, id: FutureId) -> State<F> {
        if !self.tasks.contains_key(id.id) {
            self
        } else if self.tasks[id.id].status is Suspended {
            self.with_status(id, TaskStatus::Running)
        } else {
            self.with_status(id, TaskStatus::Woken)
        }
    }

    /// The state after a drive of the task ended, with a result (`ready`)
    /// or "not ready".
    pub open spec fn finished(self, id: FutureId, ready: bool) -> State<F> {
        if !self.driving(id) {
            self
        } else if ready {
            State { tasks: self.tasks.remove(id.id), ..self }
        } else if self.tasks[id.id].status is Woken {
            self.with_status(id, TaskStatus::Suspended).woken(id)
        } else {
            self.with_status(id, TaskStatus::Suspended)
        }
    }

    /// The state without the unit that is served next.
    pub open spec fn dequeued(self) -> State<F> {
        State { queue: self.queue.drop_last(), ..self }
    }

    /// What a worker that asks now has to do.
    pub open spec fn step(self) -> Step<F> {
        if self.queue.len() == 0 {
            Step::Wait
        } else {
            match self.queue.last().t {
                Work::ShutDown => Step::Exit,
                Work::Work(f) => Step::Run(f),
                Work::Poll(id) => if self.grants(id) {
                    Step::Drive(id)
                } else {
                    Step::Skip
                },
            }
        }
    }

    /// The state after a worker asked for its next step.
    pub open spec fn stepped(self) -> State<F> {
        if self.queue.len() == 0 {
            self
        } else {
            match self.queue.last().t {
                Work::Poll(id) => self.dequeued().polled(id),
                _ => self.dequeued(),
            }
        }
    }

    /// The state after `n` shutdown signals were enqueued.
    pub open spec fn shut(self, n: nat) -> State<F>
        decreases n,
    {
        if n == 0 {
            self
        } else {
            State {
                queue: spec_push(
                    self.queue,
                    Prioritized { priority: SHUTDOWN_PRIORITY, t: Work::ShutDown },
                ),
                ..self
            }.shut((n - 1) as nat)
        }
    }
}

/// While a drive of a task is in progress, no request to drive it is
/// granted, and looking at such a request leaves the drive in progress.
pub proof fn lemma_single_driver<F>(s: State<F>, id: FutureId)
    requires
        s.driving(id),
    ensures
        !s.grants(id),
        s.polled(id).driving(id),
        s.woken(id).driving(id),
{
}

/// A granted request starts a drive, and nothing is granted for that task
/// until the drive has ended.
pub proof fn lemma_grant_starts_drive<F>(s: State<F>, id: FutureId)
    requires
        s.grants(id),
    ensures
        s.polled(id).driving(id),
        !s.polled(id).grants(id),
{
}

/// A task that ended with a result is gone: its resumption handle does
/// nothing, and no request to drive it is granted.
pub proof fn lemma_completed_task_is_gone<F>(s: State<F>, id: FutureId)
    requires
        s.driving(id),
    ensures
        !s.finished(id, true).tasks.contains_key(id.id),
        s.finished(id, true).woken(id) == s.finished(id, true),
        s.finished(id, true).polled(id) == s.finished(id, true),
        !s.finished(id, true).grants(id),
{
}

/// A resumption that arrives during a drive is not lost: when that drive
/// ends "not ready", a request for one more drive is in the queue.
pub proof fn lemma_wake_during_drive_is_kept<F>(s: State<F>, id: FutureId)
    requires
        s.driving(id),
    ensures
        s.polled(id).finished(id, false) == s.polled(id).with_status(
            id,
            TaskStatus::Suspended,
        ).woken(id),
        s.polled(id).finished(id, false).grants(id),
{
}

/// The executor: the work queue, the registry of in-flight tasks and the
/// utilization sketch behind the priorities.
pub struct Executor<F> {
    workers: usize,
    pq: PriorityQueue<Work<F>>,
    future_counter: u64,
    future_registry: HashMap<u64, Task>,
    sketch: UtilizationSketch,
}

impl<F> View for Executor<F> {
    type V = State<F>;

    closed spec fn view(&self) -> State<F> {
        State {
            queue: self.pq@,
            next_id: self.future_counter,
            tasks: self.future_registry@,
            sketch: self.sketch@,
            workers: self.workers,
        }
    }
}

impl<F> Executor<F> {
    pub open spec fn wf(&self) -> bool {
        self@.wf()
    }

    /// An executor for `number_of_workers` workers, with nothing queued
    /// and nothing in flight.
    pub fn new(number_of_workers: usize) -> (executor: Executor<F>)
        ensures
            executor.wf(),
            executor@ == State::<F>::fresh(number_of_workers),
    {
        Executor {
            workers: number_of_workers,
            pq: PriorityQueue::new(),
            future_counter: 0,
            future_registry: HashMap::new(),
            sketch: UtilizationSketch::new(),
        }
    }

    /// The number of workers that serve the queue.
    pub fn workers(&self) -> (n: usize)
        ensures
            n == self@.workers,
    {
        self.workers
    }

    /// The number of units in the queue.
    pub fn pending(&self) -> (n: usize)
        ensures
            n == self@.queue.len(),
    {
        self.pq.len()
    }

    /// Whether the task is registered, that is submitted and not completed.
    pub fn is_registered(&self, id: FutureId) -> (registered: bool)
        ensures
            registered == self@.tasks.contains_key(id.id),
    {
        self.future_registry.contains_key(&id.id)
    }

    /// Accounts one unit for the tenant and computes the priority of that
    /// unit from the tenant's share afterwards and the classification.
    pub fn priority_for_tenant_id_and_classification(
        &mut self,
        tenant_id: TenantId,
        classification: Classification,
    ) -> (priority: u64)
        requires
            old(self).wf(),
        ensures
            final(self).wf(),
            priority == old(self)@.priority_for(tenant_id, classification),
            final(self)@ == old(self)@.charged(tenant_id),
    {
        let share = self.sketch.update_and_get_relative_proportion(tenant_id, UNIT_COST);
        assert(self@.tasks == old(self)@.tasks);
        priority_of_share(share, classification)
    }

    fn enqueue(&mut self, work: Work<F>, tenant_id: TenantId, classification: Classification)
        requires
            old(self).wf(),
        ensures
            final(self).wf(),
            final(self)@ == old(self)@.enqueued(work, tenant_id, classification),
    {
        let priority = self.priority_for_tenant_id_and_classification(tenant_id, classification);
        proof {
            lemma_push_keeps_ascending(self.pq@, Prioritized { priority, t: work });
        }
        self.pq.push(work, priority);
    }

    /// Submits a closure: it is enqueued under a priority computed now.
    pub fn spawn(&mut self, tenant_id: TenantId, classification: Classification, f: F)
        requires
            old(self).wf(),
        ensures
            final(self).wf(),
            final(self)@ == old(self)@.enqueued(Work::Work(f), tenant_id, classification),
    {
        self.enqueue(Work::Work(f), tenant_id, classification);
    }

    /// Registers a new task and hands out its identity. The caller drives
    /// the task once right away and reports the end of that drive with
    /// `finish_drive`. Nothing is registered, and nothing returned, once
    /// the identities are used up.
    pub fn execute(&mut self, tenant_id: TenantId, classification: Classification) -> (id: Option<
        FutureId,
    >)
        requires
            old(self).wf(),
        ensures
            final(self).wf(),
            final(self)@ == old(self)@.registered(tenant_id, classification),
            id == if old(self)@.next_id == u64::MAX {
                None
            } else {
                Some(FutureId { id: old(self)@.next_id })
            },
            id is Some ==> !old(self)@.tasks.contains_key(id.unwrap().id),
    {
        if self.future_counter == u64::MAX {
            return None;
        }
        assert(self@.tasks == self.future_registry@);
        let id = FutureId { id: self.future_counter };
        self.future_counter = self.future_counter + 1;
        self.future_registry.insert(
            id.id,
            Task { tenant_id, classification, status: TaskStatus::Running },
        );
        Some(id)
    }

    /// Fires the resumption handle of a task: a request to drive it is
    /// enqueued under a priority computed now. For a task that is gone
    /// this does nothing.
    pub fn wake(&mut self, id: FutureId)
        requires
            old(self).wf(),
        ensures
            final(self).wf(),
            final(self)@ == old(self)@.woken(id),
    {
        let found = self.future_registry.get(&id.id);
        if let Some(task) = found {
            let tenant_id = task.tenant_id;
            let classification = task.classification;
            self.enqueue(Work::Poll(id), tenant_id, classification);
        }
    }

    fn set_status(&mut self, id: FutureId, task: Task, status: TaskStatus)
        requires
            old(self).wf(),
            old(self)@.tasks.contains_key(id.id),
            old(self)@.tasks[id.id] == task,
        ensures
            final(self).wf(),
            final(self)@ == old(self)@.with_status(id, status),
    {
        self.future_registry.insert(
            id.id,
            Task { tenant_id: task.tenant_id, classification: task.classification, status },
        );
    }

    /// Looks at a request to drive a task and says whether the caller is
    /// to drive it now. A task that is gone is left alone; one that is
    /// being driven is marked for one more drive.
    pub fn poll(&mut self, id: FutureId) -> (drive: bool)
        requires
            old(self).wf(),
        ensures
            final(self).wf(),
            drive == old(self)@.grants(id),
            final(self)@ == old(self)@.polled(id),
    {
        let found = self.future_registry.get(&id.id);
        match found {
            None => false,
            Some(task) => {
                let task: Task = *task;
                match task.status {
                    TaskStatus::Suspended => {
                        self.set_status(id, task, TaskStatus::Running);
                        true
                    },
                    _ => {
                        self.set_status(id, task, TaskStatus::Woken);
                        false
                    },
                }
            },
        }
    }

    /// Reports the end of a drive. With a result the task is removed;
    /// without one it is parked, and a resumption that arrived during the
    /// drive leads to a new request. For a task of which no drive is in
    /// progress this does nothing.
    pub fn finish_drive(&mut self, id: FutureId, ready: bool)
        requires
            old(self).wf(),
        ensures
            final(self).wf(),
            final(self)@ == old(self)@.finished(id, ready),
    {
        let found = self.future_registry.get(&id.id);
        assert(self@.tasks == self.future_registry@);
        if let Some(task) = found {
            let task: Task = *task;
            match task.status {
                TaskStatus::Suspended => {},
                TaskStatus::Running => {
                    if ready {
                        self.future_registry.remove(&id.id);
                    } else {
                        self.set_status(id, task, TaskStatus::Suspended);
                    }
                },
                TaskStatus::Woken => {
                    if ready {
                        self.future_registry.remove(&id.id);
                    } else {
                        self.set_status(id, task, TaskStatus::Suspended);
                        self.wake(id);
                    }
                },
            }
        }
    }

    /// Dequeues the unit of the highest priority and says what the worker
    /// has to do for it.
    pub fn run(&mut self) -> (step: Step<F>)
        requires
            old(self).wf(),
        ensures
            final(self).wf(),
            step == old(self)@.step(),
            final(self)@ == old(self)@.stepped(),
    {
        match self.pq.pop() {
            None => Step::Wait,
            Some(Work::ShutDown) => Step::Exit,
            Some(Work::Work(f)) => Step::Run(f),
            Some(Work::Poll(id)) => {
                if self.poll(id) {
                    Step::Drive(id)
                } else {
                    Step::Skip
                }
            },
        }
    }

    /// Enqueues one shutdown signal for every worker.
    pub fn shut_down(&mut self)
        requires
            old(self).wf(),
        ensures
            final(self).wf(),
            final(self)@ == old(self)@.shut(old(self)@.workers as nat),
    {
        let n: usize = self.workers;
        let mut i: usize = 0;
        while i < n
            invariant
                self.wf(),
                n == self.workers,
                0 <= i <= n,
                self@.shut((n - i) as nat) == old(self)@.shut(n as nat),
            decreases n - i,
        {
            proof {
                lemma_push_keeps_ascending(
                    self.pq@,
                    Prioritized { priority: SHUTDOWN_PRIORITY, t: Work::<F>::ShutDown },
                );
            }
            self.pq.push(Work::ShutDown, SHUTDOWN_PRIORITY);
            i = i + 1;
        }
    }
}

} // verus!
