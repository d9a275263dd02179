//! Task descriptors.
//!
//! Three related records follow a task through its life: a [`Task`] is the
//! static declaration (relative deadline plus routing indices), a
//! [`ScheduledTask`] is produced on admission by binding the relative deadline
//! to the clock, and a [`RunningTask`] occupies a run-queue slot while a
//! dispatcher is owed a deadline restoration.

use vstd::prelude::*;

use crate::types::{Deadline, Timestamp};

verus! {

/// Per-task capability the scheduler requires from the platform layer: the
/// routing constants chosen by the priority assignment, and control over the
/// task's arrival-signalling ("timestamper") interrupt.
///
/// Implementations live outside this library, next to the interrupt
/// controller; the scheduler itself only decides *when* each operation must
/// happen.
pub trait EdfTaskBinding {
    /// Which dispatcher interrupt runs the owning task's body.
    fn dispatcher_idx() -> u16;

    /// Which run-queue slot the owning task's dispatcher reads from.
    fn run_queue_idx() -> u16;

    /// Mask the task's timestamper interrupt, preventing it from preempting.
    fn mask_timestamper_interrupt();

    /// Unpend the task's timestamper interrupt.
    fn unpend_timestamper_interrupt();

    /// Unmask the task's timestamper interrupt, allowing it to resume
    /// preempting. Misuse can break interrupt-mask based critical sections,
    /// so it must only be called where the scheduler protocol says so.
    fn unmask_timestamper_interrupt();
}

/// A task as declared: a relative deadline and the two routing indices the
/// priority assignment chose for it. Immutable once created; consumed
/// (converted) on admission.
#[derive(Clone, Copy, Debug, PartialEq, Eq, Structural)]
pub struct Task {
    rel_deadline: Deadline,
    /// Position of the owning task's dispatcher among all dispatchers.
    dispatcher_idx: u16,
    /// Run-queue slot shared by every task of the same priority group.
    rq_idx: u16,
}

impl Task {
    /// The declared time budget, counted from the moment of arrival.
    pub closed spec fn spec_rel_deadline(&self) -> Deadline {
        self.rel_deadline
    }

    /// The dispatcher index; unique per task.
    pub closed spec fn spec_dispatcher_index(&self) -> u16 {
        self.dispatcher_idx
    }

    /// The run-queue index; shared by all tasks of the same priority group.
    pub closed spec fn spec_rq_index(&self) -> u16 {
        self.rq_idx
    }

    pub fn new(rel_deadline: Deadline, dispatcher_idx: u16, rq_idx: u16) -> (t: Self)
        ensures
            t.rel_deadline() == rel_deadline,
            t.dispatcher_index() == dispatcher_idx,
            t.rq_index() == rq_idx,
    {
        Self { rel_deadline, dispatcher_idx, rq_idx }
    }

    #[verifier::when_used_as_spec(spec_rel_deadline)]
    pub fn rel_deadline(&self) -> (d: Deadline)
        ensures
            d == self.spec_rel_deadline(),
    {
        self.rel_deadline
    }

    /// Replace the relative deadline, keeping the routing indices.
    pub fn set_deadline(&mut self, deadline: Deadline)
        ensures
            final (self).rel_deadline() == deadline,
            final (self).dispatcher_index() == old(self).dispatcher_index(),
            final (self).rq_index() == old(self).rq_index(),
    {
        self.rel_deadline = deadline;
    }

    #[verifier::when_used_as_spec(spec_dispatcher_index)]
    pub fn dispatcher_index(&self) -> (i: u16)
        ensures
            i == self.spec_dispatcher_index(),
    {
        self.dispatcher_idx
    }

    #[verifier::when_used_as_spec(spec_rq_index)]
    pub fn rq_index(&self) -> (i: u16)
        ensures
            i == self.spec_rq_index(),
    {
        self.rq_idx
    }

    /// Bind the relative deadline to the clock: the absolute deadline is
    /// `now + rel_deadline`. Overflow of this addition is a scheduling-horizon
    /// violation and is fatal, so it is excluded here.
    pub fn into_scheduled(self, now: Timestamp) -> (s: ScheduledTask)
        requires
            now + self.rel_deadline() <= Timestamp::MAX,
        ensures
            s.abs_deadline() == now + self.rel_deadline(),
            s.dispatcher_index() == self.dispatcher_index(),
            s.rq_index() == self.rq_index(),
    {
        ScheduledTask {
            deadline: now + self.rel_deadline,
            dispatcher_idx: self.dispatcher_idx,
            rq_idx: self.rq_idx,
        }
    }
}

/// A task admitted by the scheduler: its absolute deadline plus the same two
/// routing indices. Lives either momentarily on the call stack (fast path) or
/// inside the wait queue; it is destroyed when dispatched.
#[derive(Clone, Copy, Debug, PartialEq, Eq, Structural)]
pub struct ScheduledTask {
    deadline: Timestamp,
    dispatcher_idx: u16,
    rq_idx: u16,
}

impl ScheduledTask {
    /// The point on the clock by which the admitted task must complete.
    pub closed spec fn spec_abs_deadline(&self) -> Timestamp {
        self.deadline
    }

    /// The run-queue slot the admitted task is handed over in.
    pub closed spec fn spec_rq_index(&self) -> u16 {
        self.rq_idx
    }

    /// The dispatcher's index.
    pub closed spec fn spec_dispatcher_index(&self) -> u16 {
        self.dispatcher_idx
    }

    /// An admitted task as a value, from its absolute deadline and routing
    /// indices.
    pub closed spec fn spec_from_parts(
        deadline: Timestamp,
        dispatcher_idx: u16,
        rq_idx: u16,
    ) -> ScheduledTask {
        ScheduledTask { deadline, dispatcher_idx, rq_idx }
    }

    /// What [`spec_from_parts`](Self::spec_from_parts) assembles.
    pub proof fn lemma_from_parts_fields(deadline: Timestamp, dispatcher_idx: u16, rq_idx: u16)
        ensures
            ScheduledTask::spec_from_parts(deadline, dispatcher_idx, rq_idx).abs_deadline()
                == deadline,
            ScheduledTask::spec_from_parts(deadline, dispatcher_idx, rq_idx).dispatcher_index()
                == dispatcher_idx,
            ScheduledTask::spec_from_parts(deadline, dispatcher_idx, rq_idx).rq_index() == rq_idx,
    {
    }

    /// Assemble an admitted task directly from its absolute deadline and
    /// routing indices.
    pub fn from_parts(deadline: Timestamp, dispatcher_idx: u16, rq_idx: u16) -> (s: Self)
        ensures
            s == ScheduledTask::spec_from_parts(deadline, dispatcher_idx, rq_idx),
            s.abs_deadline() == deadline,
            s.dispatcher_index() == dispatcher_idx,
            s.rq_index() == rq_idx,
    {
        Self { deadline, dispatcher_idx, rq_idx }
    }

    /// An admitted task is nothing but its absolute deadline and routing
    /// indices: two tasks agreeing on all three are the same task.
    pub proof fn lemma_parts_determine(a: ScheduledTask, b: ScheduledTask)
        requires
            a.abs_deadline() == b.abs_deadline(),
            a.dispatcher_index() == b.dispatcher_index(),
            a.rq_index() == b.rq_index(),
        ensures
            a == b,
    {
    }

    #[verifier::when_used_as_spec(spec_abs_deadline)]
    pub fn abs_deadline(&self) -> (d: Timestamp)
        ensures
            d == self.spec_abs_deadline(),
    {
        self.deadline
    }

    #[verifier::when_used_as_spec(spec_rq_index)]
    pub fn rq_index(&self) -> (i: u16)
        ensures
            i == self.spec_rq_index(),
    {
        self.rq_idx
    }

    /// The dispatcher's index (i.e., which dispatcher to pend when we want to
    /// start running the task).
    #[verifier::when_used_as_spec(spec_dispatcher_index)]
    pub fn dispatcher_index(&self) -> (i: u16)
        ensures
            i == self.spec_dispatcher_index(),
    {
        self.dispatcher_idx
    }
}

/// What a run-queue slot holds while a dispatcher is owed a deadline
/// restoration.
///
/// Exactly one `RunningTask` may occupy a slot at a time: a slot is non-empty
/// from the moment `execute` inserts into it until `dispatcher_exit` clears
/// it, and a second insertion into a non-empty slot is a contract violation.
#[derive(Clone, Copy, Debug, PartialEq, Eq, Structural)]
pub enum RunningTask {
    /// The new task preempted a running one; the saved value is the system
    /// deadline to restore when the task completes.
    Preempted(Timestamp),
    /// The new task was dispatched without preempting (the fast-path/bypass
    /// case); the value is the task's own absolute deadline.
    EarlyDispatch(Timestamp),
}

impl RunningTask {
    /// Record a preemption, saving the previous system deadline.
    pub fn preempt(prev_deadline: Timestamp) -> (r: Self)
        ensures
            r == RunningTask::Preempted(prev_deadline),
    {
        RunningTask::Preempted(prev_deadline)
    }

    /// Record an early dispatch of `task`, keeping its absolute deadline.
    pub fn early_dispatch(task: ScheduledTask) -> (r: Self)
        ensures
            r == RunningTask::EarlyDispatch(task.abs_deadline()),
    {
        RunningTask::EarlyDispatch(task.abs_deadline())
    }
}

} // verus!
