use edf_scheduler::edf_pass::{ConfigError, EdfPass};

#[test]
fn grouping_assigns_shared_run_queue_index_per_deadline() {
    let pass = EdfPass::new(1, 8);
    let deadlines: Vec<u32> = vec![10000, 10000, 5000];
    let ts = pass
        .assign_dispatchers_and_priorities(&deadlines, 3)
        .unwrap();
    assert_eq!(ts.num_tasks(), 3);
    // one dispatcher per task, positions 0..3
    for i in 0..3 {
        assert_eq!(ts.task(i).dispatcher_index(), i as u16);
    }
    // the two 10000-deadline tasks share run-queue index 0; the 5000-deadline
    // task gets run-queue index 1 (the more urgent group)
    assert_eq!(ts.task(0).rel_deadline(), 10000);
    assert_eq!(ts.task(0).rq_index(), 0);
    assert_eq!(ts.task(1).rel_deadline(), 10000);
    assert_eq!(ts.task(1).rq_index(), 0);
    assert_eq!(ts.task(2).rel_deadline(), 5000);
    assert_eq!(ts.task(2).rq_index(), 1);
    assert_eq!(ts.num_groups(), 2);
}

#[test]
fn deadlines_are_sorted_descending() {
    let pass = EdfPass::new(1, 8);
    let deadlines: Vec<u32> = vec![300, 700, 100, 700, 500];
    let ts = pass
        .assign_dispatchers_and_priorities(&deadlines, 5)
        .unwrap();
    let rels: Vec<u32> = (0..5).map(|i| ts.task(i).rel_deadline()).collect();
    assert_eq!(rels, vec![700, 700, 500, 300, 100]);
    let rqs: Vec<u16> = (0..5).map(|i| ts.task(i).rq_index()).collect();
    assert_eq!(rqs, vec![0, 0, 1, 2, 3]);
    assert_eq!(ts.num_groups(), 4);
}

#[test]
fn wait_queue_length_is_tasks_minus_distinct_deadlines() {
    let pass = EdfPass::new(1, 8);
    let deadlines: Vec<u32> = vec![10000, 10000, 5000];
    let ts = pass
        .assign_dispatchers_and_priorities(&deadlines, 3)
        .unwrap();
    assert_eq!(ts.wait_queue_len(), 1);

    let deadlines: Vec<u32> = vec![42, 42, 42, 42];
    let ts = pass
        .assign_dispatchers_and_priorities(&deadlines, 4)
        .unwrap();
    assert_eq!(ts.num_groups(), 1);
    assert_eq!(ts.wait_queue_len(), 3);
}

#[test]
fn too_few_dispatchers_is_a_config_error() {
    let pass = EdfPass::new(1, 8);
    let deadlines: Vec<u32> = vec![10, 20, 30];
    let err = pass
        .assign_dispatchers_and_priorities(&deadlines, 2)
        .unwrap_err();
    assert_eq!(
        err,
        ConfigError::TooFewDispatchers {
            tasks: 3,
            dispatchers: 2,
        }
    );
}

#[test]
fn exceeding_the_priority_limit_is_a_config_error() {
    // two distinct deadlines need groups 1 and 2; with the reserved
    // signalling priority at 2, group 2 collides with it
    let pass = EdfPass::new(1, 2);
    let deadlines: Vec<u32> = vec![100, 200];
    let err = pass
        .assign_dispatchers_and_priorities(&deadlines, 2)
        .unwrap_err();
    assert_eq!(err, ConfigError::PriorityLimitExceeded { max_priority: 2 });

    // one more available level and the same set is accepted
    let pass = EdfPass::new(1, 3);
    assert!(pass
        .assign_dispatchers_and_priorities(&deadlines, 2)
        .is_ok());
}

#[test]
fn empty_task_set_is_accepted() {
    let pass = EdfPass::new(1, 8);
    let deadlines: Vec<u32> = vec![];
    let ts = pass
        .assign_dispatchers_and_priorities(&deadlines, 0)
        .unwrap();
    assert_eq!(ts.num_tasks(), 0);
    assert_eq!(ts.num_groups(), 0);
    assert_eq!(ts.wait_queue_len(), 0);
}
