use edf_scheduler::critical_section::{DroppableCriticalSection, NoopCs};
use edf_scheduler::edf_pass::{EdfPass, TaskSet};
use edf_scheduler::scheduler::{ScheduleOutcome, Scheduler};

fn build(deadlines: &[u32]) -> TaskSet {
    let pass = EdfPass::new(1, 8);
    let v: Vec<u32> = deadlines.to_vec();
    pass.assign_dispatchers_and_priorities(&v, v.len()).unwrap()
}

#[test]
fn bypass_dispatches_even_with_later_deadline() {
    // two groups: rel 8000 -> group 0, rel 1000 -> group 1
    let cs = NoopCs::enter();
    let mut s = Scheduler::new(build(&[8000, 1000]));
    let tight = s.config().task(1);
    let lax = s.config().task(0);

    // the tight task preempts (deadline earlier than the idle system deadline)
    let out = s.schedule(&cs, tight, 0);
    assert_eq!(
        out,
        ScheduleOutcome::Dispatched {
            dispatcher_idx: 1,
            preempt: true,
        }
    );
    assert_eq!(s.system_deadline().get(&cs), 1000);

    // the lax task's absolute deadline (8000) is *later* than the system
    // deadline (1000), but its slot is empty: it still dispatches (bypass)
    let out = s.schedule(&cs, lax, 0);
    assert_eq!(
        out,
        ScheduleOutcome::Dispatched {
            dispatcher_idx: 0,
            preempt: false,
        }
    );
    // an early dispatch leaves the system deadline alone
    assert_eq!(s.system_deadline().get(&cs), 1000);
}

#[test]
fn second_same_slot_arrival_is_enqueued_not_dispatched() {
    // two tasks share one deadline, hence one run-queue slot
    let cs = NoopCs::enter();
    let mut s = Scheduler::new(build(&[10000, 10000]));
    let a = s.config().task(0);
    let b = s.config().task(1);

    let out = s.schedule(&cs, a, 0);
    assert!(matches!(out, ScheduleOutcome::Dispatched { .. }));
    assert!(!s.run_queue().is_ready(&cs, 0));

    // `a` still occupies slot 0: `b` must wait, and the slot is untouched
    let out = s.schedule(&cs, b, 5);
    assert_eq!(out, ScheduleOutcome::Enqueued);
    assert!(!s.run_queue().is_ready(&cs, 0));
    assert_eq!(s.wait_queue().len(&cs), 1);
}

#[test]
fn wait_queue_never_exceeds_tasks_minus_distinct_deadlines() {
    // groups: {10000, 10000, 10000} and {5000, 5000}: capacity 5 - 2 = 3
    let cs = NoopCs::enter();
    let mut s = Scheduler::new(build(&[10000, 10000, 10000, 5000, 5000]));
    let cap = s.config().wait_queue_len();
    assert_eq!(cap, 3);
    for i in 0..5 {
        let t = s.config().task(i);
        s.schedule(&cs, t, 0);
        assert!(s.wait_queue().len(&cs) <= cap);
    }
    // one bypass per group, the other three wait
    assert_eq!(s.wait_queue().len(&cs), 3);
}

#[test]
fn deadline_restoration_round_trip_after_preemption() {
    let cs = NoopCs::enter();
    let mut s = Scheduler::new(build(&[8000, 1000]));
    let tight = s.config().task(1);
    let before = s.system_deadline().get(&cs);

    let out = s.schedule(&cs, tight, 100);
    assert!(matches!(out, ScheduleOutcome::Dispatched { preempt: true, .. }));
    let prev = s.dispatcher_entry(&cs, tight.rq_index());
    let pend = s.dispatcher_exit(&cs, tight.dispatcher_index(), tight.rq_index(), prev);
    assert_eq!(pend, None);
    assert_eq!(s.system_deadline().get(&cs), before);
}

#[test]
fn deadline_restoration_round_trip_after_early_dispatch() {
    let cs = NoopCs::enter();
    let mut s = Scheduler::new(build(&[8000, 1000]));
    let tight = s.config().task(1);
    let lax = s.config().task(0);

    // make something urgent run so that the next arrival takes the bypass
    s.schedule(&cs, tight, 0);
    let before = s.system_deadline().get(&cs);

    let out = s.schedule(&cs, lax, 0);
    assert!(matches!(out, ScheduleOutcome::Dispatched { preempt: false, .. }));
    let prev = s.dispatcher_entry(&cs, lax.rq_index());
    // the early dispatch's own deadline becomes the system deadline while it
    // runs, and the previous one comes back on exit
    assert_eq!(s.system_deadline().get(&cs), 8000);
    let pend = s.dispatcher_exit(&cs, lax.dispatcher_index(), lax.rq_index(), prev);
    assert_eq!(pend, None);
    assert_eq!(s.system_deadline().get(&cs), before);
}

#[test]
fn completion_cascades_queued_earlier_deadline_task() {
    // one group of two same-deadline tasks
    let cs = NoopCs::enter();
    let mut s = Scheduler::new(build(&[10000, 10000]));
    let a = s.config().task(0);
    let b = s.config().task(1);

    s.schedule(&cs, a, 0);
    let prev = s.dispatcher_entry(&cs, a.rq_index());

    // b arrives while a runs: same slot, later absolute deadline -> queued
    let out = s.schedule(&cs, b, 5);
    assert_eq!(out, ScheduleOutcome::Enqueued);

    // completing a dispatches b without a further arrival signal
    let pend = s.dispatcher_exit(&cs, a.dispatcher_index(), a.rq_index(), prev);
    assert_eq!(pend, Some(b.dispatcher_index()));
    assert_eq!(s.wait_queue().len(&cs), 0);
    assert_eq!(s.system_deadline().get(&cs), 10005);
    assert!(!s.run_queue().is_ready(&cs, b.rq_index()));

    // and b's own entry/exit restores the idle deadline
    let prev = s.dispatcher_entry(&cs, b.rq_index());
    let pend = s.dispatcher_exit(&cs, b.dispatcher_index(), b.rq_index(), prev);
    assert_eq!(pend, None);
    assert_eq!(s.system_deadline().get(&cs), u32::MAX);
}

#[test]
fn end_to_end_three_tasks_preemption_scenario() {
    // relative deadlines 1000 / 4000 / 8000, three dispatchers
    let cs = NoopCs::enter();
    let mut s = Scheduler::new(build(&[1000, 4000, 8000]));
    // descending order: 8000 -> dispatcher 0 (group 0), 4000 -> dispatcher 1
    // (group 1), 1000 -> dispatcher 2 (group 2, most urgent)
    let long = s.config().task(0);
    let short = s.config().task(2);
    assert_eq!(long.rel_deadline(), 8000);
    assert_eq!(short.rel_deadline(), 1000);

    // the 8000-task arrives at t=100 and starts running
    let now = 100;
    let out = s.schedule(&cs, long, now);
    assert!(matches!(out, ScheduleOutcome::Dispatched { .. }));
    assert_eq!(s.system_deadline().get(&cs), now + 8000);
    let prev_long = s.dispatcher_entry(&cs, long.rq_index());

    // before it completes, the 1000-task arrives at t=200: it preempts, and
    // the system deadline becomes its own
    let now2 = 200;
    let out = s.schedule(&cs, short, now2);
    assert_eq!(
        out,
        ScheduleOutcome::Dispatched {
            dispatcher_idx: short.dispatcher_index(),
            preempt: true,
        }
    );
    assert_eq!(s.system_deadline().get(&cs), now2 + 1000);

    // the 1000-task runs and completes: the system deadline is restored to
    // the 8000-task's, whose dispatcher resumes
    let prev_short = s.dispatcher_entry(&cs, short.rq_index());
    let pend = s.dispatcher_exit(&cs, short.dispatcher_index(), short.rq_index(), prev_short);
    assert_eq!(pend, None);
    assert_eq!(s.system_deadline().get(&cs), now + 8000);
    assert!(!s.run_queue().is_ready(&cs, long.rq_index()));

    // the 8000-task finally completes
    let pend = s.dispatcher_exit(&cs, long.dispatcher_index(), long.rq_index(), prev_long);
    assert_eq!(pend, None);
    assert_eq!(s.system_deadline().get(&cs), u32::MAX);
}

#[test]
fn initial_state_is_idle() {
    let cs = NoopCs::enter();
    let s = Scheduler::new(build(&[1000, 4000, 8000]));
    assert_eq!(s.system_deadline().get(&cs), u32::MAX);
    assert_eq!(s.wait_queue().len(&cs), 0);
    for g in 0..3 {
        assert!(s.run_queue().is_ready(&cs, g));
    }
}

#[test]
fn cascade_picks_the_earliest_queued_task_across_groups() {
    // groups: {10000, 10000} -> slot 0, {5000, 5000} -> slot 1
    let cs = NoopCs::enter();
    let mut s = Scheduler::new(build(&[10000, 10000, 5000, 5000]));
    let a1 = s.config().task(0);
    let a2 = s.config().task(1);
    let b1 = s.config().task(2);
    let b2 = s.config().task(3);

    s.schedule(&cs, a1, 0); // preempts: system deadline 10000
    s.schedule(&cs, b1, 1); // preempts: system deadline 5001
    assert_eq!(s.schedule(&cs, a2, 2), ScheduleOutcome::Enqueued); // abs 10002
    assert_eq!(s.schedule(&cs, b2, 3), ScheduleOutcome::Enqueued); // abs 5003
    assert_eq!(s.wait_queue().len(&cs), 2);

    // b1's dispatcher (the most urgent pending one) runs and completes; the
    // queued task with the earliest deadline is b2, not a2
    let prev = s.dispatcher_entry(&cs, b1.rq_index());
    let pend = s.dispatcher_exit(&cs, b1.dispatcher_index(), b1.rq_index(), prev);
    assert_eq!(pend, Some(b2.dispatcher_index()));
    assert_eq!(s.system_deadline().get(&cs), 5003);
    assert_eq!(s.wait_queue().len(&cs), 1);
    let left = s.wait_queue().next_task(&cs).unwrap();
    assert_eq!(left.dispatcher_index(), a2.dispatcher_index());
}
