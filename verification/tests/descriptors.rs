use edf_scheduler::critical_section::{DroppableCriticalSection, NoopCs};
use edf_scheduler::edf_pass::EdfPass;
use edf_scheduler::scheduler::Scheduler;
use edf_scheduler::task::Task;

#[test]
fn task_carries_deadline_and_routing() {
    let mut t = Task::new(2500, 4, 1);
    assert_eq!(t.rel_deadline(), 2500);
    assert_eq!(t.dispatcher_index(), 4);
    assert_eq!(t.rq_index(), 1);
    t.set_deadline(9000);
    assert_eq!(t.rel_deadline(), 9000);
    assert_eq!(t.dispatcher_index(), 4);
    assert_eq!(t.rq_index(), 1);
}

#[test]
fn admission_binds_deadline_to_the_clock() {
    let t = Task::new(2500, 4, 1);
    let st = t.into_scheduled(1000);
    assert_eq!(st.abs_deadline(), 3500);
    assert_eq!(st.dispatcher_index(), 4);
    assert_eq!(st.rq_index(), 1);
}

#[test]
fn dispatcher_priorities_are_the_group_numbers() {
    let pass = EdfPass::new(1, 8);
    let deadlines: Vec<u32> = vec![300, 700, 100, 700];
    let ts = pass
        .assign_dispatchers_and_priorities(&deadlines, 4)
        .unwrap();
    assert_eq!(ts.dispatcher_priorities(), vec![1, 2, 3]);
}

#[test]
fn missed_deadline_diagnostic_compares_against_system_deadline() {
    let cs = NoopCs::enter();
    let pass = EdfPass::new(1, 8);
    let deadlines: Vec<u32> = vec![1000];
    let ts = pass
        .assign_dispatchers_and_priorities(&deadlines, 1)
        .unwrap();
    let mut s = Scheduler::new(ts);
    let t = s.config().task(0);
    s.schedule(&cs, t, 0);
    let _ = s.dispatcher_entry(&cs, t.rq_index());
    // the system deadline is now the dispatched task's (cycle 1000)
    assert!(!s.missed_deadline(&cs, 1000));
    assert!(s.missed_deadline(&cs, 1001));
}
