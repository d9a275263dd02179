use edf_scheduler::critical_section::{DroppableCriticalSection, NoopCs};
use edf_scheduler::run_queue::RunQueue;
use edf_scheduler::system_deadline::SystemDeadline;
use edf_scheduler::task::{RunningTask, ScheduledTask};
use edf_scheduler::wait_queue::WaitQueue;

#[test]
fn system_deadline_starts_at_max_and_replaces() {
    let cs = NoopCs::enter();
    let mut dl = SystemDeadline::new();
    assert_eq!(dl.get(&cs), u32::MAX);
    let prev = dl.replace(&cs, 1234);
    assert_eq!(prev, u32::MAX);
    assert_eq!(dl.get(&cs), 1234);
    let prev = dl.replace(&cs, 99);
    assert_eq!(prev, 1234);
    assert_eq!(dl.get(&cs), 99);
}

#[test]
fn run_queue_slot_lifecycle() {
    let cs = NoopCs::enter();
    let mut rq = RunQueue::new(2);
    assert!(rq.is_ready(&cs, 0));
    assert!(rq.is_ready(&cs, 1));
    rq.insert(&cs, RunningTask::preempt(777), 1);
    assert!(rq.is_ready(&cs, 0));
    assert!(!rq.is_ready(&cs, 1));
    assert_eq!(rq.peek(&cs, 1), RunningTask::Preempted(777));
    rq.mark_complete(&cs, 1);
    assert!(rq.is_ready(&cs, 1));
}

#[test]
fn run_queue_records_early_dispatch_deadline() {
    let cs = NoopCs::enter();
    let mut rq = RunQueue::new(1);
    let st = ScheduledTask::from_parts(5000, 3, 0);
    rq.insert(&cs, RunningTask::early_dispatch(st), 0);
    assert_eq!(rq.peek(&cs, 0), RunningTask::EarlyDispatch(5000));
}

#[test]
fn wait_queue_hands_out_minimum_deadline_first() {
    let cs = NoopCs::enter();
    let mut wq = WaitQueue::new(4);
    assert_eq!(wq.len(&cs), 0);
    assert_eq!(wq.next_task(&cs), None);
    wq.push(&cs, ScheduledTask::from_parts(300, 0, 0));
    wq.push(&cs, ScheduledTask::from_parts(100, 1, 1));
    wq.push(&cs, ScheduledTask::from_parts(200, 2, 2));
    assert_eq!(wq.len(&cs), 3);
    let head = wq.next_task(&cs).unwrap();
    assert_eq!(head.abs_deadline(), 100);
    assert_eq!(head.dispatcher_index(), 1);
    assert_eq!(head.rq_index(), 1);
    assert_eq!(wq.pop_unchecked(&cs).abs_deadline(), 100);
    assert_eq!(wq.pop_unchecked(&cs).abs_deadline(), 200);
    assert_eq!(wq.pop_unchecked(&cs).abs_deadline(), 300);
    assert_eq!(wq.len(&cs), 0);
}

#[test]
fn wait_queue_breaks_deadline_ties_by_dispatcher_index() {
    let cs = NoopCs::enter();
    let mut wq = WaitQueue::new(4);
    wq.push(&cs, ScheduledTask::from_parts(500, 7, 0));
    wq.push(&cs, ScheduledTask::from_parts(500, 2, 0));
    let first = wq.pop_unchecked(&cs);
    let second = wq.pop_unchecked(&cs);
    assert_eq!(first.dispatcher_index(), 2);
    assert_eq!(second.dispatcher_index(), 7);
}

#[test]
fn critical_section_token_round_trip() {
    let mut cs = NoopCs::enter();
    cs.restore();
    let cs2 = NoopCs::enter();
    cs2.exit();
    let cs3 = NoopCs::enter();
    cs3.forget();
    let _ = cs;
}
