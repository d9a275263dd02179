//! The scheduler protocol: `schedule`, `execute`, `dispatcher_entry`,
//! `dispatcher_exit`.
//!
//! A [`Scheduler`] owns the three process-wide singletons (run queue, wait
//! queue, system deadline) plus the static task table, and decides admission
//! and dispatch. The physical effects the decisions call for (pending a
//! dispatcher interrupt, unpending/unmasking a timestamper) are handed back to
//! the caller as values: the interrupt-controller glue performs them, still
//! under the critical section it passed in.

use vstd::prelude::*;

use crate::capacity::{
    group_ids, group_size, id_count, lemma_distinct_group_ids_le_size, lemma_group_ids_counts,
    lemma_group_ids_len, lemma_group_size_pos, lemma_id_count_sorted_insert,
    lemma_size_total_is_len, lemma_sum_per_group_bound_strict, lemma_waiting_count_sorted_insert,
    lemma_waiting_total_is_len, waiting_count, waiting_total,
};
use crate::critical_section::DroppableCriticalSection;
use crate::edf_pass::TaskSet;
use crate::run_queue::RunQueue;
use crate::system_deadline::SystemDeadline;
use crate::task::{RunningTask, ScheduledTask, Task};
use crate::types::Timestamp;
use crate::wait_queue::{lemma_sorted_insert_contains, sorted_insert, WaitQueue};

verus! {

/// What `schedule` decided: either pend the task's dispatcher now, or the
/// task went to the wait queue.
#[derive(Clone, Copy, Debug, PartialEq, Eq, Structural)]
pub enum ScheduleOutcome {
    /// The task was admitted on the fast path: the caller must pend the
    /// dispatcher with this index. `preempt` records whether the system
    /// deadline was replaced by the task's own.
    Dispatched { dispatcher_idx: u16, preempt: bool },
    /// The task was placed on the wait queue; it will be dispatched by a
    /// later `dispatcher_exit`.
    Enqueued,
}

/// The EDF scheduler: the static task table and the three shared runtime
/// structures, created once at startup and alive for the process lifetime.
///
/// The `slot_owner` ghost map remembers, per run-queue index, which task
/// (by dispatcher index) currently occupies the slot; it is what ties the
/// masking discipline of the platform to the queue-capacity proof.
pub struct Scheduler {
    config: TaskSet,
    run_queue: RunQueue,
    wait_queue: WaitQueue,
    system_deadline: SystemDeadline,
    slot_owner: Ghost<Map<int, int>>,
}

impl Scheduler {
    /// The static task table.
    pub closed spec fn spec_config(&self) -> TaskSet {
        self.config
    }

    /// The run queue.
    pub closed spec fn spec_run_queue(&self) -> RunQueue {
        self.run_queue
    }

    /// The wait queue.
    pub closed spec fn spec_wait_queue(&self) -> WaitQueue {
        self.wait_queue
    }

    /// The system-deadline register.
    pub closed spec fn spec_system_deadline(&self) -> SystemDeadline {
        self.system_deadline
    }

    /// Which task (dispatcher index) holds each occupied run-queue slot.
    pub closed spec fn spec_owner(&self) -> Map<int, int> {
        self.slot_owner@
    }

    /// The declared tasks, by dispatcher index.
    pub open spec fn spec_tasks(&self) -> Seq<Task> {
        self.spec_config()@
    }

    /// The number of priority groups (run-queue slots).
    pub open spec fn spec_groups(&self) -> int {
        self.spec_config().group_count()
    }

    /// The run-queue slots.
    pub open spec fn spec_slots(&self) -> Seq<Option<RunningTask>> {
        self.spec_run_queue()@
    }

    /// The waiting tasks, ascending by absolute deadline.
    pub open spec fn spec_waiting(&self) -> Seq<ScheduledTask> {
        self.spec_wait_queue()@
    }

    /// The current system deadline.
    pub open spec fn spec_sys_deadline(&self) -> Timestamp {
        self.spec_system_deadline().spec_value()
    }

    /// A task is outstanding from the moment `schedule` admits it until its
    /// `dispatcher_exit`: it then sits in the wait queue or holds its group's
    /// run-queue slot. The platform masks a task's arrival signal for exactly
    /// that span, so an arriving task is never already outstanding.
    pub open spec fn outstanding(&self, id: int) -> bool {
        id_count(self.spec_waiting(), id) > 0 || exists|g: int|
            #[trigger] self.spec_owner().dom().contains(g) && self.spec_owner()[g] == id
    }

    /// The task is one of the declared tasks, under its own dispatcher index.
    pub open spec fn valid_task(&self, task: Task) -> bool {
        &&& 0 <= task.dispatcher_index() < self.spec_tasks().len()
        &&& self.spec_tasks()[task.dispatcher_index() as int] == task
    }

    /// How one `schedule` call relates the state before it (`pre`) to the
    /// state after it (`post`) and to its outcome `r`. This is the whole
    /// behavior of admission:
    /// - a task that must preempt (absolute deadline earlier than the system
    ///   deadline) is dispatched with `preempt`, the system deadline becomes
    ///   its own and the previous one is saved in its slot;
    /// - a task whose slot is empty is dispatched without preempting (the
    ///   bypass), its slot recording its own absolute deadline;
    /// - otherwise the task joins the wait queue, ordered by absolute
    ///   deadline, and nothing else moves.
    pub open spec fn schedule_rel(
        pre: Scheduler,
        task: Task,
        now: Timestamp,
        post: Scheduler,
        r: ScheduleOutcome,
    ) -> bool {
        &&& post.spec_config() == pre.spec_config()
        &&& (now + task.rel_deadline() < pre.spec_sys_deadline() ==> {
            &&& r == (ScheduleOutcome::Dispatched {
                dispatcher_idx: task.dispatcher_index(),
                preempt: true,
            })
            &&& post.spec_sys_deadline() == now + task.rel_deadline()
            &&& post.spec_slots() == pre.spec_slots().update(
                task.rq_index() as int,
                Some(RunningTask::Preempted(pre.spec_sys_deadline())),
            )
            &&& post.spec_waiting() == pre.spec_waiting()
            &&& post.spec_owner() == pre.spec_owner().insert(
                task.rq_index() as int,
                task.dispatcher_index() as int,
            )
        })
        &&& ((now + task.rel_deadline() >= pre.spec_sys_deadline()
            && pre.spec_slots()[task.rq_index() as int] is None) ==> {
            &&& r == (ScheduleOutcome::Dispatched {
                dispatcher_idx: task.dispatcher_index(),
                preempt: false,
            })
            &&& post.spec_sys_deadline() == pre.spec_sys_deadline()
            &&& post.spec_slots() == pre.spec_slots().update(
                task.rq_index() as int,
                Some(RunningTask::EarlyDispatch((now + task.rel_deadline()) as Timestamp)),
            )
            &&& post.spec_waiting() == pre.spec_waiting()
            &&& post.spec_owner() == pre.spec_owner().insert(
                task.rq_index() as int,
                task.dispatcher_index() as int,
            )
        })
        &&& ((now + task.rel_deadline() >= pre.spec_sys_deadline()
            && pre.spec_slots()[task.rq_index() as int] is Some) ==> {
            &&& r == ScheduleOutcome::Enqueued
            &&& post.spec_sys_deadline() == pre.spec_sys_deadline()
            &&& post.spec_slots() == pre.spec_slots()
            &&& post.spec_waiting() == sorted_insert(
                pre.spec_waiting(),
                ScheduledTask::spec_from_parts(
                    (now + task.rel_deadline()) as Timestamp,
                    task.dispatcher_index(),
                    task.rq_index(),
                ),
            )
            &&& post.spec_owner() == pre.spec_owner()
        })
    }

    /// How one `dispatcher_entry` call relates states and its result: the
    /// queues are untouched; a preempted slot hands back its saved deadline,
    /// an early-dispatch slot swaps the system deadline to its own and hands
    /// back the previous one.
    pub open spec fn entry_rel(
        pre: Scheduler,
        rq_idx: u16,
        post: Scheduler,
        prev: Timestamp,
    ) -> bool {
        &&& post.spec_config() == pre.spec_config()
        &&& post.spec_slots() == pre.spec_slots()
        &&& post.spec_waiting() == pre.spec_waiting()
        &&& post.spec_owner() == pre.spec_owner()
        &&& (pre.spec_slots()[rq_idx as int] matches Some(RunningTask::Preempted(saved))
            ==> prev == saved && post.spec_sys_deadline() == pre.spec_sys_deadline())
        &&& (pre.spec_slots()[rq_idx as int] matches Some(RunningTask::EarlyDispatch(abs_dl))
            ==> prev == pre.spec_sys_deadline() && post.spec_sys_deadline() == abs_dl)
    }

    /// Whether completing the task of slot `rq_idx`, restoring
    /// `prev_deadline`, dispatches the earliest waiting task: the wait queue's
    /// head must preempt the restored deadline and find its slot ready (the
    /// just-cleared slot counts as ready).
    pub open spec fn exit_cascades(pre: Scheduler, rq_idx: u16, prev_deadline: Timestamp) -> bool {
        &&& pre.spec_waiting().len() > 0
        &&& pre.spec_waiting()[0].abs_deadline() < prev_deadline
        &&& (rq_idx == pre.spec_waiting()[0].rq_index() || pre.spec_slots()[pre.spec_waiting()[0].rq_index() as int] is None)
    }

    /// How one `dispatcher_exit` call relates states and its result: the slot
    /// is cleared and the previous deadline restored; then, exactly when
    /// [`exit_cascades`](Self::exit_cascades) holds, the earliest waiting task
    /// is popped and dispatched as a preemption of the restored deadline.
    pub open spec fn exit_rel(
        pre: Scheduler,
        rq_idx: u16,
        prev_deadline: Timestamp,
        post: Scheduler,
        pend: Option<u16>,
    ) -> bool {
        &&& post.spec_config() == pre.spec_config()
        &&& (Scheduler::exit_cascades(pre, rq_idx, prev_deadline) ==> {
            let next = pre.spec_waiting()[0];
            &&& pend == Some(next.dispatcher_index())
            &&& post.spec_sys_deadline() == next.abs_deadline()
            &&& post.spec_waiting() == pre.spec_waiting().drop_first()
            &&& post.spec_slots() == pre.spec_slots().update(rq_idx as int, None).update(
                next.rq_index() as int,
                Some(RunningTask::Preempted(prev_deadline)),
            )
            &&& post.spec_owner() == pre.spec_owner().remove(rq_idx as int).insert(
                next.rq_index() as int,
                next.dispatcher_index() as int,
            )
        })
        &&& (!Scheduler::exit_cascades(pre, rq_idx, prev_deadline) ==> {
            &&& pend == None::<u16>
            &&& post.spec_sys_deadline() == prev_deadline
            &&& post.spec_waiting() == pre.spec_waiting()
            &&& post.spec_slots() == pre.spec_slots().update(rq_idx as int, None)
            &&& post.spec_owner() == pre.spec_owner().remove(rq_idx as int)
        })
    }

    /// The scheduler's invariant, established by [`new`](Self::new) and kept
    /// by every operation:
    /// - the table is a well-formed priority assignment, with one run-queue
    ///   slot per priority group;
    /// - the wait queue's capacity is `task count - group count`;
    /// - a slot is occupied exactly when some admitted task of its group owns
    ///   it, and that owner is not simultaneously waiting;
    /// - every waiting task is a declared task, routed to its own group, and
    ///   no task waits twice;
    /// - per group, the waiting tasks stay strictly below the group size —
    ///   the heart of the capacity bound.
    pub open spec fn wf(&self) -> bool {
        let tasks = self.spec_tasks();
        let n = tasks.len() as int;
        let groups = self.spec_groups();
        let slots = self.spec_slots();
        let wq = self.spec_waiting();
        let owner = self.spec_owner();
        &&& self.spec_config().wf()
        &&& slots.len() == groups
        &&& self.spec_wait_queue().wf()
        &&& self.spec_wait_queue().spec_capacity() as int == n - groups
        &&& forall|g: int|
            0 <= g < groups ==> ((#[trigger] slots[g]) is Some <==> owner.dom().contains(g))
        &&& forall|g: int|
            #[trigger] owner.dom().contains(g) ==> 0 <= g < groups && 0 <= owner[g] < n
                && tasks[owner[g]].rq_index() == g
        &&& forall|k: int|
            0 <= k < wq.len() ==> 0 <= (#[trigger] wq[k]).dispatcher_index() < n
                && tasks[wq[k].dispatcher_index() as int].rq_index() == wq[k].rq_index()
        &&& forall|id: int| #[trigger] id_count(wq, id) <= 1
        &&& forall|g: int|
            #[trigger] owner.dom().contains(g) ==> id_count(wq, owner[g]) == 0
        &&& forall|g: int|
            0 <= g < groups ==> #[trigger] waiting_count(wq, g) <= group_size(tasks, g) - 1
    }

    /// Create the scheduler for a static task set: one empty run-queue slot
    /// per priority group, an empty wait queue of the proven capacity, and
    /// the system deadline at its maximum ("nothing urgent is running").
    pub fn new(config: TaskSet) -> (s: Self)
        requires
            config.wf(),
        ensures
            s.wf(),
            s.spec_tasks() == config@,
            s.spec_groups() == config.group_count(),
            s.spec_sys_deadline() == Timestamp::MAX,
            s.spec_waiting() == Seq::<ScheduledTask>::empty(),
            forall|g: int| 0 <= g < s.spec_groups() ==> s.spec_slots()[g] is None,
            s.spec_owner() == Map::<int, int>::empty(),
    {
        proof {
            config.lemma_rq_le_index();
        }
        let groups = config.num_groups();
        let n = config.num_tasks();
        let wq_capacity = n - groups;
        let s = Scheduler {
            config,
            run_queue: RunQueue::new(groups),
            wait_queue: WaitQueue::new(wq_capacity),
            system_deadline: SystemDeadline::new(),
            slot_owner: Ghost(Map::empty()),
        };
        proof {
            let tasks = s.spec_tasks();
            let wq = s.spec_waiting();
            assert(wq =~= Seq::<ScheduledTask>::empty());
            assert forall|id: int| #[trigger] id_count(wq, id) <= 1 by {
                assert(id_count(wq, id) == 0);
            }
            assert forall|g: int| 0 <= g < s.spec_groups() implies #[trigger] waiting_count(
                wq,
                g,
            ) <= group_size(tasks, g) - 1 by {
                assert(waiting_count(wq, g) == 0);
                s.spec_config().lemma_group_inhabited(g);
                let i = choose|i: int|
                    0 <= i < tasks.len() && #[trigger] tasks[i].rq_index() == g;
                lemma_group_size_pos(tasks, g, i);
            }
        }
        s
    }

    /// Read-only access to the static task table.
    pub fn config(&self) -> (c: &TaskSet)
        ensures
            *c == self.spec_config(),
    {
        &self.config
    }

    /// Read-only access to the run queue.
    pub fn run_queue(&self) -> (q: &RunQueue)
        ensures
            *q == self.spec_run_queue(),
    {
        &self.run_queue
    }

    /// Read-only access to the wait queue.
    pub fn wait_queue(&self) -> (q: &WaitQueue)
        ensures
            *q == self.spec_wait_queue(),
    {
        &self.wait_queue
    }

    /// Read-only access to the system-deadline register.
    pub fn system_deadline(&self) -> (d: &SystemDeadline)
        ensures
            *d == self.spec_system_deadline(),
    {
        &self.system_deadline
    }

    /// Dispatch an admitted task now.
    ///
    /// If it preempts, the system deadline is swapped to the task's absolute
    /// deadline and the saved value goes into the task's run-queue slot;
    /// otherwise the slot records an early dispatch and the system deadline
    /// is untouched. Either way the slot must have been empty: a second
    /// insertion would mean an arrival was not correctly masked. The caller
    /// must pend the dispatcher whose index is returned.
    pub fn execute<CS: DroppableCriticalSection>(
        &mut self,
        _cs: &CS,
        task: ScheduledTask,
        preempt: bool,
    ) -> (pend: u16)
        requires
            old(self).wf(),
            0 <= task.dispatcher_index() < old(self).spec_tasks().len(),
            old(self).spec_tasks()[task.dispatcher_index() as int].rq_index() == task.rq_index(),
            !old(self).outstanding(task.dispatcher_index() as int),
            old(self).spec_slots()[task.rq_index() as int] is None,
        ensures
            final (self).wf(),
            pend == task.dispatcher_index(),
            final (self).spec_config() == old(self).spec_config(),
            final (self).spec_waiting() == old(self).spec_waiting(),
            final (self).spec_owner() == old(self).spec_owner().insert(
                task.rq_index() as int,
                task.dispatcher_index() as int,
            ),
            preempt ==> final (self).spec_sys_deadline() == task.abs_deadline() && final (
            self).spec_slots() == old(self).spec_slots().update(
                task.rq_index() as int,
                Some(RunningTask::Preempted(old(self).spec_sys_deadline())),
            ),
            !preempt ==> final (self).spec_sys_deadline() == old(self).spec_sys_deadline()
                && final (self).spec_slots() == old(self).spec_slots().update(
                task.rq_index() as int,
                Some(RunningTask::EarlyDispatch(task.abs_deadline())),
            ),
    {
        proof {
            self.config.lemma_rq_bounded();
        }
        let ghost pre = *self;
        let rq_idx = task.rq_index();
        let dispatcher_idx = task.dispatcher_index();
        if preempt {
            let prev_dl = self.system_deadline.replace(_cs, task.abs_deadline());
            self.run_queue.insert(_cs, RunningTask::preempt(prev_dl), rq_idx);
        } else {
            self.run_queue.insert(_cs, RunningTask::early_dispatch(task), rq_idx);
        }
        proof {
            self.slot_owner@ = self.slot_owner@.insert(rq_idx as int, dispatcher_idx as int);
            self.lemma_insert_preserves_wf(pre, task);
        }
        dispatcher_idx
    }

    /// Filling the empty slot of a fresh, valid task keeps the invariant.
    proof fn lemma_insert_preserves_wf(&self, pre: Scheduler, task: ScheduledTask)
        requires
            pre.wf(),
            0 <= task.dispatcher_index() < pre.spec_tasks().len(),
            pre.spec_tasks()[task.dispatcher_index() as int].rq_index() == task.rq_index(),
            !pre.outstanding(task.dispatcher_index() as int),
            pre.spec_slots()[task.rq_index() as int] is None,
            self.spec_config() == pre.spec_config(),
            self.spec_wait_queue() == pre.spec_wait_queue(),
            exists|rt: RunningTask|
                self.spec_slots() == pre.spec_slots().update(
                    task.rq_index() as int,
                    Some(rt),
                ),
            self.spec_owner() == pre.spec_owner().insert(
                task.rq_index() as int,
                task.dispatcher_index() as int,
            ),
        ensures
            self.wf(),
    {
        let tasks = self.spec_tasks();
        let groups = self.spec_groups();
        let wq = self.spec_waiting();
        let g = task.rq_index() as int;
        let t_id = task.dispatcher_index() as int;
        pre.spec_config().lemma_rq_bounded();
        assert(0 <= g < groups);
        assert forall|h: int| 0 <= h < groups implies ((#[trigger] self.spec_slots()[h]) is Some
            <==> self.spec_owner().dom().contains(h)) by {
            if h != g {
                assert(self.spec_slots()[h] == pre.spec_slots()[h]);
            }
        }
        assert forall|h: int| #[trigger] self.spec_owner().dom().contains(h) implies 0 <= h
            < groups && 0 <= self.spec_owner()[h] < tasks.len() && tasks[self.spec_owner()[
            h]].rq_index() == h by {
            if h != g {
                assert(pre.spec_owner().dom().contains(h));
            }
        }
        assert forall|h: int| #[trigger] self.spec_owner().dom().contains(h) implies id_count(
            wq,
            self.spec_owner()[h],
        ) == 0 by {
            if h == g {
                crate::capacity::lemma_id_count_nonneg(wq, t_id);
                assert(!(id_count(pre.spec_waiting(), t_id) > 0));
            } else {
                assert(pre.spec_owner().dom().contains(h));
            }
        }
    }

    /// In the slow-path state (the task's slot is occupied and it does not
    /// preempt), the wait queue has room: the occupying owner and the
    /// arriving task themselves keep the group two short of its size, and
    /// every other group one short.
    proof fn lemma_enqueue_room(&self, task: ScheduledTask)
        requires
            self.wf(),
            0 <= task.dispatcher_index() < self.spec_tasks().len(),
            self.spec_tasks()[task.dispatcher_index() as int].rq_index() == task.rq_index(),
            !self.outstanding(task.dispatcher_index() as int),
            self.spec_slots()[task.rq_index() as int] is Some,
        ensures
            waiting_count(self.spec_waiting(), task.rq_index() as int) <= group_size(
                self.spec_tasks(),
                task.rq_index() as int,
            ) - 2,
            self.spec_waiting().len() < self.spec_wait_queue().spec_capacity(),
    {
        let tasks = self.spec_tasks();
        let n = tasks.len() as int;
        let groups = self.spec_groups();
        let wq = self.spec_waiting();
        let g = task.rq_index() as int;
        let t_id = task.dispatcher_index() as int;
        self.spec_config().lemma_rq_bounded();
        assert(0 <= g < groups);
        assert(self.spec_owner().dom().contains(g));
        let o_id = self.spec_owner()[g];
        assert(id_count(wq, o_id) == 0);
        crate::capacity::lemma_id_count_nonneg(wq, t_id);
        assert(id_count(wq, t_id) == 0);
        assert(o_id != t_id);
        lemma_group_ids_counts(wq, tasks, g);
        lemma_group_ids_len(wq, g);
        let gids = group_ids(wq, g);
        let ids = gids.push(o_id).push(t_id);
        assert(forall|q: int| 0 <= q < gids.len() ==> ids[q] == #[trigger] gids[q]);
        assert(ids[gids.len() as int] == o_id);
        assert(ids[gids.len() as int + 1] == t_id);
        assert forall|p: int, q: int| 0 <= p < q < ids.len() implies ids[p] != ids[q] by {
            if q < gids.len() {
                if gids[p] == gids[q] {
                    assert(id_count(wq, gids[p]) >= 2);
                }
            } else if p < gids.len() {
                assert(id_count(wq, gids[p]) >= 1);
            }
        }
        assert forall|p: int| 0 <= p < ids.len() implies 0 <= #[trigger] ids[p] < tasks.len()
            && tasks[ids[p]].rq_index() == g by {
            if p < gids.len() {
                assert(0 <= gids[p] < tasks.len() && tasks[gids[p]].rq_index() == g);
            }
        }
        lemma_distinct_group_ids_le_size(ids, tasks, g);
        assert(waiting_count(wq, g) + 2 <= group_size(tasks, g));
        assert forall|k: int| 0 <= k < wq.len() implies 0 <= #[trigger] wq[k].rq_index()
            < groups by {
            assert(tasks[wq[k].dispatcher_index() as int].rq_index() == wq[k].rq_index());
        }
        lemma_waiting_total_is_len(wq, groups);
        lemma_sum_per_group_bound_strict(wq, tasks, groups, g);
        assert forall|i: int| 0 <= i < tasks.len() implies 0 <= #[trigger] tasks[i].rq_index()
            < groups by {}
        lemma_size_total_is_len(tasks, groups);
        assert(waiting_total(wq, groups) == wq.len());
        assert(wq.len() <= n - groups - 1);
    }

    /// Signal to the scheduler that a task wants to run, `now` being the
    /// timestamp of its arrival.
    ///
    /// Fast path: if the task's absolute deadline is earlier than the system
    /// deadline (it must preempt), or its run-queue slot is empty (no other
    /// same-priority task is outstanding), it is dispatched immediately —
    /// the caller pends the returned dispatcher. Slow path: otherwise it
    /// goes onto the wait queue.
    ///
    /// The last precondition is the platform's timing guarantee that makes
    /// the fast path safe: tasks sharing a slot share one relative deadline,
    /// so a task that would preempt (deadline earlier than the system
    /// deadline) never finds its own slot occupied.
    pub fn schedule<CS: DroppableCriticalSection>(
        &mut self,
        cs: &CS,
        task: Task,
        now: Timestamp,
    ) -> (r: ScheduleOutcome)
        requires
            old(self).wf(),
            old(self).valid_task(task),
            !old(self).outstanding(task.dispatcher_index() as int),
            now + task.rel_deadline() <= Timestamp::MAX,
            now + task.rel_deadline() < old(self).spec_sys_deadline() ==> old(
                self,
            ).spec_slots()[task.rq_index() as int] is None,
        ensures
            final (self).wf(),
            Scheduler::schedule_rel(*old(self), task, now, *final (self), r),
    {
        proof {
            self.config.lemma_rq_bounded();
        }
        let st = task.into_scheduled(now);
        let dispatcher_ready = self.run_queue.is_ready(cs, st.rq_index());
        let sys_dl = self.system_deadline.get(cs);

        // The wait queue can be bypassed once per dispatcher priority level
        // (even if the task's deadline is farther in the future than the
        // system deadline), by directly pending the task in its dispatcher
        // when the slot is empty. The interrupt controller's priority
        // configuration then serializes execution, which is exactly right:
        // every priority level has one unique relative deadline, so no task
        // can ever preempt another with the same deadline.
        if st.abs_deadline() < sys_dl || dispatcher_ready {
            let preempt = st.abs_deadline() < sys_dl;
            let dispatcher_idx = self.execute(cs, st, preempt);
            proof {
                ScheduledTask::lemma_from_parts_fields(
                    (now + task.rel_deadline()) as Timestamp,
                    task.dispatcher_index(),
                    task.rq_index(),
                );
                ScheduledTask::lemma_parts_determine(
                    st,
                    ScheduledTask::spec_from_parts(
                        (now + task.rel_deadline()) as Timestamp,
                        task.dispatcher_index(),
                        task.rq_index(),
                    ),
                );
            }
            ScheduleOutcome::Dispatched { dispatcher_idx, preempt }
        } else {
            proof {
                self.lemma_enqueue_room(st);
            }
            let ghost pre = *self;
            self.wait_queue.push(cs, st);
            proof {
                ScheduledTask::lemma_from_parts_fields(
                    (now + task.rel_deadline()) as Timestamp,
                    task.dispatcher_index(),
                    task.rq_index(),
                );
                ScheduledTask::lemma_parts_determine(
                    st,
                    ScheduledTask::spec_from_parts(
                        (now + task.rel_deadline()) as Timestamp,
                        task.dispatcher_index(),
                        task.rq_index(),
                    ),
                );
                self.lemma_push_preserves_wf(pre, st);
            }
            ScheduleOutcome::Enqueued
        }
    }

    /// Pushing a fresh, valid, slot-blocked task keeps the invariant.
    proof fn lemma_push_preserves_wf(&self, pre: Scheduler, task: ScheduledTask)
        requires
            pre.wf(),
            0 <= task.dispatcher_index() < pre.spec_tasks().len(),
            pre.spec_tasks()[task.dispatcher_index() as int].rq_index() == task.rq_index(),
            !pre.outstanding(task.dispatcher_index() as int),
            pre.spec_slots()[task.rq_index() as int] is Some,
            waiting_count(pre.spec_waiting(), task.rq_index() as int) <= group_size(
                pre.spec_tasks(),
                task.rq_index() as int,
            ) - 2,
            self.spec_config() == pre.spec_config(),
            self.spec_run_queue() == pre.spec_run_queue(),
            self.spec_system_deadline() == pre.spec_system_deadline(),
            self.spec_owner() == pre.spec_owner(),
            self.spec_wait_queue().wf(),
            self.spec_wait_queue().spec_capacity() == pre.spec_wait_queue().spec_capacity(),
            self.spec_waiting() == sorted_insert(pre.spec_waiting(), task),
        ensures
            self.wf(),
    {
        let tasks = self.spec_tasks();
        let groups = self.spec_groups();
        let wq0 = pre.spec_waiting();
        let wq1 = self.spec_waiting();
        let t_id = task.dispatcher_index() as int;
        let g = task.rq_index() as int;
        crate::capacity::lemma_id_count_nonneg(wq0, t_id);
        lemma_push_entries_valid(wq0, task, tasks);
        lemma_push_id_counts(wq0, task);
        assert forall|h: int| #[trigger] self.spec_owner().dom().contains(h) implies id_count(
            wq1,
            self.spec_owner()[h],
        ) == 0 by {
            lemma_id_count_sorted_insert(wq0, task, self.spec_owner()[h]);
            assert(!(exists|g2: int|
                #[trigger] pre.spec_owner().dom().contains(g2) && pre.spec_owner()[g2] == t_id));
            assert(pre.spec_owner()[h] != t_id);
        }
        assert forall|h: int| 0 <= h < groups implies #[trigger] waiting_count(wq1, h)
            <= group_size(tasks, h) - 1 by {
            lemma_waiting_count_sorted_insert(wq0, task, h);
        }
    }

    /// Dispatcher entry: called at the top of every dispatcher handler,
    /// before running the user task body, under a critical section.
    ///
    /// Reads the occupied run-queue slot — a dispatcher must never run
    /// without a waiting task. For a preempted entry the saved deadline is
    /// returned; for an early dispatch the system deadline is swapped to the
    /// task's own and the previous value returned. Either way the result is
    /// the deadline to restore when the task completes, via
    /// [`dispatcher_exit`](Self::dispatcher_exit).
    pub fn dispatcher_entry<CS: DroppableCriticalSection>(&mut self, cs: &CS, rq_idx: u16) -> (
        prev: Timestamp)
        requires
            old(self).wf(),
            rq_idx < old(self).spec_groups(),
            old(self).spec_slots()[rq_idx as int] is Some,
        ensures
            final (self).wf(),
            Scheduler::entry_rel(*old(self), rq_idx, *final (self), prev),
    {
        let task_to_run = self.run_queue.peek(cs, rq_idx);
        match task_to_run {
            RunningTask::Preempted(previous_dl) => previous_dl,
            RunningTask::EarlyDispatch(abs_dl) => self.system_deadline.replace(cs, abs_dl),
        }
    }

    /// Optional missed-deadline diagnostic: once `dispatcher_entry` has run,
    /// the system deadline is the dispatched task's absolute deadline, so a
    /// clock reading past it means the deadline was missed. A hard-real-time
    /// build treats that as fatal when the diagnostic is enabled; the caller
    /// decides what to do with the answer.
    pub fn missed_deadline<CS: DroppableCriticalSection>(&self, cs: &CS, now: Timestamp) -> (
        missed: bool)
        ensures
            missed == (now > self.spec_sys_deadline()),
    {
        now > self.system_deadline.get(cs)
    }

    /// Dispatcher exit: called immediately after the user task body
    /// completes, under a critical section, with the deadline that the
    /// matching [`dispatcher_entry`](Self::dispatcher_entry) returned.
    ///
    /// Clears the run-queue slot, restores the system deadline, and then
    /// looks at the wait queue's minimum-deadline task: if it would preempt
    /// the restored deadline and its own slot is ready, it is popped and
    /// dispatched (cascading dispatch) — the caller must pend the returned
    /// dispatcher. Between the two steps the caller must also unpend and
    /// re-enable (in that order, re-enable last) the completed task's
    /// arrival signal: the signal is guaranteed to have re-pended itself
    /// spuriously while the task body ran.
    pub fn dispatcher_exit<CS: DroppableCriticalSection>(
        &mut self,
        cs: &CS,
        dispatcher_idx: u16,
        rq_idx: u16,
        prev_deadline: Timestamp,
    ) -> (pend: Option<u16>)
        requires
            old(self).wf(),
            rq_idx < old(self).spec_groups(),
            old(self).spec_slots()[rq_idx as int] is Some,
            old(self).spec_owner().dom().contains(rq_idx as int),
            old(self).spec_owner()[rq_idx as int] == dispatcher_idx,
        ensures
            final (self).wf(),
            Scheduler::exit_rel(*old(self), rq_idx, prev_deadline, *final (self), pend),
    {
        self.run_queue.mark_complete(cs, rq_idx);
        proof {
            self.slot_owner@ = self.slot_owner@.remove(rq_idx as int);
        }
        let _ = self.system_deadline.replace(cs, prev_deadline);
        proof {
            let wq = self.spec_waiting();
            assert forall|h: int| 0 <= h < self.spec_groups() implies ((
            #[trigger] self.spec_slots()[h]) is Some <==> self.spec_owner().dom().contains(
                h,
            )) by {}
            assert(self.wf());
        }

        // A task may have arrived in the queue while the just-completed task
        // ran. If the earliest-deadline waiting task preempts the restored
        // deadline and its slot is free, send it to its dispatcher: this is
        // how the wait queue drains its non-preempting items. Same-slot tasks
        // share one deadline, so they never preempt each other; a full slot
        // therefore always holds a tighter deadline than any queued task of
        // the same priority level.
        let sys_dl = self.system_deadline.get(cs);
        let next_task = self.wait_queue.next_task(cs);
        match next_task {
            Some(task) => {
                proof {
                    self.config.lemma_rq_bounded();
                }
                if task.abs_deadline() < sys_dl {
                    if self.run_queue.is_ready(cs, task.rq_index()) {
                        let ghost pre = *self;
                        let task = self.wait_queue.pop_unchecked(cs);
                        proof {
                            self.lemma_pop_preserves_wf(pre);
                            assert(id_count(pre.spec_waiting(), task.dispatcher_index() as int)
                                >= 1);
                            assert(id_count(
                                self.spec_waiting(),
                                task.dispatcher_index() as int,
                            ) == 0);
                            assert(!self.outstanding(task.dispatcher_index() as int)) by {
                                assert forall|g2: int|
                                    #[trigger] self.spec_owner().dom().contains(g2) implies
                                    self.spec_owner()[g2] != task.dispatcher_index() as int by {
                                    assert(id_count(
                                        pre.spec_waiting(),
                                        pre.spec_owner()[g2],
                                    ) == 0);
                                }
                            }
                        }
                        let dispatcher_idx = self.execute(cs, task, true);
                        return Some(dispatcher_idx);
                    }
                }
                None
            },
            None => None,
        }
    }

    /// Popping the head of the wait queue keeps the invariant.
    proof fn lemma_pop_preserves_wf(&self, pre: Scheduler)
        requires
            pre.wf(),
            pre.spec_waiting().len() > 0,
            self.spec_config() == pre.spec_config(),
            self.spec_run_queue() == pre.spec_run_queue(),
            self.spec_system_deadline() == pre.spec_system_deadline(),
            self.spec_owner() == pre.spec_owner(),
            self.spec_wait_queue().wf(),
            self.spec_wait_queue().spec_capacity() == pre.spec_wait_queue().spec_capacity(),
            self.spec_waiting() == pre.spec_waiting().drop_first(),
        ensures
            self.wf(),
            forall|id: int| #[trigger] id_count(self.spec_waiting(), id) <= id_count(
                pre.spec_waiting(),
                id,
            ),
            id_count(self.spec_waiting(), pre.spec_waiting()[0].dispatcher_index() as int)
                == id_count(
                pre.spec_waiting(),
                pre.spec_waiting()[0].dispatcher_index() as int,
            ) - 1,
            id_count(pre.spec_waiting(), pre.spec_waiting()[0].dispatcher_index() as int) >= 1,
    {
        let wq0 = pre.spec_waiting();
        let wq1 = self.spec_waiting();
        let tasks = self.spec_tasks();
        let groups = self.spec_groups();
        assert(forall|k: int| 0 <= k < wq1.len() ==> #[trigger] wq1[k] == wq0[k + 1]);
        assert forall|id: int| #[trigger] id_count(wq1, id) <= id_count(wq0, id) by {
            assert(id_count(wq0, id) == (if wq0.first().dispatcher_index() == id {
                1int
            } else {
                0int
            }) + id_count(wq1, id));
        }
        assert forall|h: int| 0 <= h < groups implies #[trigger] waiting_count(wq1, h)
            <= group_size(tasks, h) - 1 by {
            assert(waiting_count(wq0, h) == (if wq0.first().rq_index() == h {
                1int
            } else {
                0int
            }) + waiting_count(wq1, h));
        }
        assert forall|h: int| #[trigger] self.spec_owner().dom().contains(h) implies id_count(
            wq1,
            self.spec_owner()[h],
        ) == 0 by {
            let o = self.spec_owner()[h];
            assert(pre.spec_owner().dom().contains(h));
            assert(id_count(wq0, o) == 0);
            assert(id_count(wq0, o) == (if wq0.first().dispatcher_index() == o {
                1int
            } else {
                0int
            }) + id_count(wq1, o));
            crate::capacity::lemma_id_count_nonneg(wq1, o);
        }
        let d0 = wq0[0].dispatcher_index() as int;
        assert(wq0.first() == wq0[0]);
        assert(id_count(wq0, d0) == 1 + id_count(wq1, d0));
        crate::capacity::lemma_id_count_nonneg(wq1, d0);
    }
}


/// A valid task inserted among valid waiting entries leaves every entry
/// valid.
proof fn lemma_push_entries_valid(wq0: Seq<ScheduledTask>, task: ScheduledTask, tasks: Seq<Task>)
    requires
        forall|k: int|
            0 <= k < wq0.len() ==> 0 <= (#[trigger] wq0[k]).dispatcher_index() < tasks.len()
                && tasks[wq0[k].dispatcher_index() as int].rq_index() == wq0[k].rq_index(),
        0 <= task.dispatcher_index() < tasks.len(),
        tasks[task.dispatcher_index() as int].rq_index() == task.rq_index(),
    ensures
        forall|k: int|
            0 <= k < sorted_insert(wq0, task).len() ==> 0 <= (#[trigger] sorted_insert(
                wq0,
                task,
            )[k]).dispatcher_index() < tasks.len() && tasks[sorted_insert(
                wq0,
                task,
            )[k].dispatcher_index() as int].rq_index() == sorted_insert(wq0, task)[k].rq_index(),
{
    let wq1 = sorted_insert(wq0, task);
    lemma_sorted_insert_contains(wq0, task);
    assert forall|k: int| 0 <= k < wq1.len() implies 0 <= (#[trigger] wq1[k]).dispatcher_index()
        < tasks.len() && tasks[wq1[k].dispatcher_index() as int].rq_index()
        == wq1[k].rq_index() by {
        assert(wq1.contains(wq1[k]));
        if wq1[k] != task {
            assert(wq0.contains(wq1[k]));
            let j = choose|j: int| 0 <= j < wq0.len() && wq0[j] == wq1[k];
            assert(0 <= wq0[j].dispatcher_index() < tasks.len());
        }
    }
}

/// Inserting a task that is not yet waiting keeps every id at most once in
/// the queue.
proof fn lemma_push_id_counts(wq0: Seq<ScheduledTask>, task: ScheduledTask)
    requires
        forall|id: int| #[trigger] id_count(wq0, id) <= 1,
        id_count(wq0, task.dispatcher_index() as int) <= 0,
    ensures
        forall|id: int| #[trigger] id_count(sorted_insert(wq0, task), id) <= 1,
{
    assert forall|id: int| #[trigger] id_count(sorted_insert(wq0, task), id) <= 1 by {
        lemma_id_count_sorted_insert(wq0, task, id);
    }
}

} // verus!
