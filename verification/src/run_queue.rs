//! The run queue: a 1-deep handoff buffer per dispatcher priority.

use vstd::prelude::*;

use crate::critical_section::DroppableCriticalSection;
use crate::task::RunningTask;

verus! {

/// A 1-deep message-passing buffer, which holds one slot for each dispatcher
/// priority in the system.
///
/// Only one slot per priority is needed, because for each priority only one
/// dispatcher is guaranteed to run at any instant. A slot is non-empty from
/// the moment a task is inserted until the matching completion clears it; a
/// second insertion into a non-empty slot is a contract violation, excluded
/// by the precondition of [`insert`](RunQueue::insert).
///
/// Every access demands a critical-section token.
pub struct RunQueue {
    slots: Vec<Option<RunningTask>>,
}

impl RunQueue {
    /// The slots as a sequence; index = run-queue index = priority group.
    pub closed spec fn view(&self) -> Seq<Option<RunningTask>> {
        self.slots@
    }

    /// Whether `idx` names a slot.
    pub open spec fn valid_index(&self, idx: u16) -> bool {
        idx < self@.len()
    }

    /// Create a run queue with `num_slots` empty slots, one per distinct
    /// priority level in the task set.
    pub fn new(num_slots: usize) -> (q: Self)
        ensures
            q@.len() == num_slots,
            forall|i: int| 0 <= i < num_slots ==> q@[i] is None,
    {
        let mut slots: Vec<Option<RunningTask>> = Vec::new();
        let mut i: usize = 0;
        while i < num_slots
            invariant
                i <= num_slots,
                slots@.len() == i,
                forall|j: int| 0 <= j < i ==> slots@[j] is None,
            decreases num_slots - i,
        {
            slots.push(None);
            i += 1;
        }
        Self { slots }
    }

    /// Insert a pending task into the queue for later retrieval.
    ///
    /// The slot must be empty: inserting over a waiting task would mean a task
    /// was scheduled into an already-occupied dispatcher slot, i.e. an arrival
    /// was not correctly masked.
    pub fn insert<CS: DroppableCriticalSection>(&mut self, _cs: &CS, task: RunningTask, idx: u16)
        requires
            old(self).valid_index(idx),
            old(self)@[idx as int] is None,
        ensures
            final (self)@ == old(self)@.update(idx as int, Some(task)),
    {
        self.slots.set(idx as usize, Some(task));
    }

    /// Peek at the task to run, without marking the slot as ready.
    ///
    /// A dispatcher must never run without a waiting task, so the slot must be
    /// occupied.
    pub fn peek<CS: DroppableCriticalSection>(&self, _cs: &CS, idx: u16) -> (task: RunningTask)
        requires
            self.valid_index(idx),
            self@[idx as int] is Some,
        ensures
            self@[idx as int] == Some(task),
    {
        let slot = &self.slots[idx as usize];
        match slot {
            Some(task) => *task,
            None => {
                proof {
                    assert(false);
                }
                RunningTask::Preempted(0)
            },
        }
    }

    /// Signal that the task has completed by taking the task out of the
    /// buffer, therefore marking the queue slot as ready.
    pub fn mark_complete<CS: DroppableCriticalSection>(&mut self, _cs: &CS, idx: u16)
        requires
            old(self).valid_index(idx),
            old(self)@[idx as int] is Some,
        ensures
            final (self)@ == old(self)@.update(idx as int, None),
    {
        self.slots.set(idx as usize, None);
    }

    /// Whether or not this dispatcher is ready to accept a new task to run.
    pub fn is_ready<CS: DroppableCriticalSection>(&self, _cs: &CS, idx: u16) -> (ready: bool)
        requires
            self.valid_index(idx),
        ensures
            ready == (self@[idx as int] is None),
    {
        self.slots[idx as usize].is_none()
    }
}

} // verus!
