//! The scheduler's global guarantees, stated and proved over the protocol
//! relations of [`Scheduler`].

use vstd::prelude::*;

use crate::capacity::{
    lemma_size_total_is_len, lemma_sum_per_group_bound, lemma_waiting_total_is_len,
};
use crate::edf_pass::distinct_deadline_count;
use crate::scheduler::{ScheduleOutcome, Scheduler};
use crate::task::Task;
use crate::types::Timestamp;

verus! {

/// Wait-queue capacity bound: in every reachable scheduler state, the wait
/// queue holds at most `task count - distinct deadline count` tasks. Each
/// priority group can bypass the queue exactly once, so each group keeps at
/// least one of its tasks out of the queue.
pub proof fn lemma_wait_queue_capacity_bound(s: &Scheduler)
    requires
        s.wf(),
    ensures
        s.spec_waiting().len() <= s.spec_tasks().len() - distinct_deadline_count(
            s.spec_tasks().map_values(|t: Task| t.rel_deadline()),
        ),
{
    let tasks = s.spec_tasks();
    let groups = s.spec_groups();
    let wq = s.spec_waiting();
    s.spec_config().lemma_rq_bounded();
    s.spec_config().lemma_group_count_is_distinct();
    assert forall|k: int| 0 <= k < wq.len() implies 0 <= #[trigger] wq[k].rq_index()
        < groups by {
        assert(tasks[wq[k].dispatcher_index() as int].rq_index() == wq[k].rq_index());
    }
    lemma_waiting_total_is_len(wq, groups);
    lemma_sum_per_group_bound(wq, tasks, groups);
    assert forall|i: int| 0 <= i < tasks.len() implies 0 <= #[trigger] tasks[i].rq_index()
        < groups by {}
    lemma_size_total_is_len(tasks, groups);
}

/// Slot mutual exclusion: while a run-queue slot is occupied, a second
/// arrival for the same slot is never dispatched — it is enqueued, and the
/// slot's content is untouched. (The slot stays occupied from `execute`'s
/// insertion until `dispatcher_exit` clears it; inserting over it is excluded
/// by `execute`'s own precondition.)
pub proof fn lemma_slot_mutual_exclusion(
    s0: Scheduler,
    task: Task,
    now: Timestamp,
    s1: Scheduler,
    r: ScheduleOutcome,
)
    requires
        s0.wf(),
        now + task.rel_deadline() < s0.spec_sys_deadline() ==> s0.spec_slots()[task.rq_index()
            as int] is None,
        s0.spec_slots()[task.rq_index() as int] is Some,
        Scheduler::schedule_rel(s0, task, now, s1, r),
    ensures
        r == ScheduleOutcome::Enqueued,
        s1.spec_slots() == s0.spec_slots(),
        s1.spec_slots()[task.rq_index() as int] == s0.spec_slots()[task.rq_index() as int],
{
    assert(now + task.rel_deadline() >= s0.spec_sys_deadline());
}

/// Deadline restoration round-trip: an arrival that is dispatched, and whose
/// dispatcher then runs and completes with no intervening arrivals, leaves
/// the system deadline exactly where it was before the arrival — whether it
/// preempted or took the bypass. The one excluded input is a wait queue
/// whose earliest task would preempt the restored deadline: completion then
/// rightly dispatches that task and adopts its deadline instead.
pub proof fn lemma_deadline_restoration_round_trip(
    s0: Scheduler,
    task: Task,
    now: Timestamp,
    s1: Scheduler,
    r: ScheduleOutcome,
    s2: Scheduler,
    prev: Timestamp,
    s3: Scheduler,
    pend: Option<u16>,
)
    requires
        s0.wf(),
        s0.valid_task(task),
        now + task.rel_deadline() <= Timestamp::MAX,
        s0.spec_waiting().len() > 0 ==> s0.spec_waiting()[0].abs_deadline()
            >= s0.spec_sys_deadline(),
        s0.spec_slots()[task.rq_index() as int] is None,
        Scheduler::schedule_rel(s0, task, now, s1, r),
        Scheduler::entry_rel(s1, task.rq_index(), s2, prev),
        Scheduler::exit_rel(s2, task.rq_index(), prev, s3, pend),
    ensures
        s3.spec_sys_deadline() == s0.spec_sys_deadline(),
        pend == None::<u16>,
        s3.spec_waiting() == s0.spec_waiting(),
{
    let g = task.rq_index() as int;
    s0.spec_config().lemma_rq_bounded();
    if now + task.rel_deadline() < s0.spec_sys_deadline() {
        assert(s1.spec_slots()[g] == Some(
            crate::task::RunningTask::Preempted(s0.spec_sys_deadline()),
        ));
        assert(prev == s0.spec_sys_deadline());
    } else {
        assert(s1.spec_slots()[g] == Some(
            crate::task::RunningTask::EarlyDispatch((now + task.rel_deadline()) as Timestamp),
        ));
        assert(prev == s1.spec_sys_deadline());
        assert(s1.spec_sys_deadline() == s0.spec_sys_deadline());
    }
    assert(s2.spec_waiting() == s0.spec_waiting());
    assert(prev == s0.spec_sys_deadline());
    assert(!Scheduler::exit_cascades(s2, task.rq_index(), prev));
}

/// Bypass correctness: an arrival whose run-queue slot is empty is always
/// dispatched immediately, regardless of how its deadline compares to the
/// system deadline.
pub proof fn lemma_bypass_dispatches(
    s0: Scheduler,
    task: Task,
    now: Timestamp,
    s1: Scheduler,
    r: ScheduleOutcome,
)
    requires
        s0.spec_slots()[task.rq_index() as int] is None,
        Scheduler::schedule_rel(s0, task, now, s1, r),
    ensures
        r == (ScheduleOutcome::Dispatched {
            dispatcher_idx: task.dispatcher_index(),
            preempt: now + task.rel_deadline() < s0.spec_sys_deadline(),
        }),
        s1.spec_waiting() == s0.spec_waiting(),
{
}

/// Cascade: when a task completes while an earlier-deadline task waits in
/// the queue with its own slot ready, that task — the earliest-deadline one
/// of all waiting tasks — is dispatched by the completion itself, into its
/// own slot, with no further arrival signal needed.
pub proof fn lemma_cascade_dispatches(
    s2: Scheduler,
    rq_idx: u16,
    prev: Timestamp,
    s3: Scheduler,
    pend: Option<u16>,
)
    requires
        s2.wf(),
        rq_idx < s2.spec_groups(),
        s2.spec_waiting().len() > 0,
        s2.spec_waiting()[0].abs_deadline() < prev,
        rq_idx == s2.spec_waiting()[0].rq_index() || s2.spec_slots()[s2.spec_waiting()[0].rq_index() as int] is None,
        Scheduler::exit_rel(s2, rq_idx, prev, s3, pend),
    ensures
        pend == Some(s2.spec_waiting()[0].dispatcher_index()),
        s3.spec_sys_deadline() == s2.spec_waiting()[0].abs_deadline(),
        s3.spec_waiting() == s2.spec_waiting().drop_first(),
        s3.spec_slots()[s2.spec_waiting()[0].rq_index() as int] is Some,
        forall|k: int|
            0 <= k < s2.spec_waiting().len() ==> s2.spec_waiting()[0].abs_deadline() <= (
            #[trigger] s2.spec_waiting()[k]).abs_deadline(),
{
    assert(Scheduler::exit_cascades(s2, rq_idx, prev));
    let next = s2.spec_waiting()[0];
    s2.spec_config().lemma_rq_bounded();
    assert(s2.spec_tasks()[next.dispatcher_index() as int].rq_index() == next.rq_index());
    assert(0 <= next.rq_index() < s2.spec_slots().len());
    let cleared = s2.spec_slots().update(rq_idx as int, None);
    assert(cleared.len() == s2.spec_slots().len());
    assert(s3.spec_slots() == cleared.update(
        next.rq_index() as int,
        Some(crate::task::RunningTask::Preempted(prev)),
    ));
    assert(s3.spec_slots()[next.rq_index() as int] == Some(
        crate::task::RunningTask::Preempted(prev),
    ));
    s2.spec_wait_queue().lemma_sorted();
    assert forall|k: int| 0 <= k < s2.spec_waiting().len() implies s2.spec_waiting()[
        0].abs_deadline() <= (#[trigger] s2.spec_waiting()[k]).abs_deadline() by {
        if k > 0 {
            assert(crate::wait_queue::entry_le(s2.spec_waiting()[0], s2.spec_waiting()[k]));
        }
    }
}

/// The earliest-deadline waiting task is always the queue's head: the queue
/// hands tasks out in deadline order (ties broken by dispatcher index).
pub proof fn lemma_queue_head_is_earliest(s: &Scheduler, k: int)
    requires
        s.wf(),
        s.spec_waiting().len() > 0,
        0 <= k < s.spec_waiting().len(),
    ensures
        s.spec_waiting()[0].abs_deadline() <= s.spec_waiting()[k].abs_deadline(),
{
    s.spec_wait_queue().lemma_sorted();
    if k > 0 {
        assert(crate::wait_queue::entry_le(s.spec_waiting()[0], s.spec_waiting()[k]));
    }
}

} // verus!
