use ggg::job_queue::manager::{JobManager, ManagerAction};
use ggg::job_queue::{Job, JobQueueMessage, JobTree};

fn leaf(key: u64, input: u32) -> JobTree<u32> {
    JobTree::new(key, input, Vec::new())
}

fn with(key: u64, input: u32, dependencies: Vec<(u64, JobTree<u32>)>) -> JobTree<u32> {
    JobTree::new(key, input, dependencies)
}

type Manager = JobManager<u32, JobTree<u32>, u32>;

fn is_run(action: &ManagerAction<u32, u32>, key: u64, input: u32, outputs: &[(u64, u32)]) -> bool {
    match action {
        ManagerAction::RunJob(k, i, o) => *k == key && *i == input && o.as_slice() == outputs,
        _ => false,
    }
}

fn is_completed(action: &ManagerAction<u32, u32>, key: u64, output: u32) -> bool {
    matches!(action, ManagerAction::Notify(JobQueueMessage::JobCompleted(k, o)) if *k == key && *o == output)
}

fn is_queue_empty(action: &ManagerAction<u32, u32>) -> bool {
    matches!(action, ManagerAction::Notify(JobQueueMessage::QueueEmpty))
}

#[test]
fn added_job_without_dependencies_runs() {
    let mut manager = Manager::new(2);
    let actions = manager.try_add_job(leaf(1, 10), 0);
    assert_eq!(actions.len(), 1);
    assert!(is_run(&actions[0], 1, 10, &[]));
}

#[test]
fn dependency_runs_first_and_hands_its_output_over() {
    let mut manager = Manager::new(2);
    let job = with(1, 10, vec![(7, leaf(2, 20))]);
    let actions = manager.try_add_job(job, 0);
    assert_eq!(actions.len(), 1);
    assert!(is_run(&actions[0], 2, 20, &[]));

    let actions = manager.handle_job_completed(2, 5, 0);
    assert_eq!(actions.len(), 2);
    assert!(is_completed(&actions[0], 2, 5));
    assert!(is_run(&actions[1], 1, 10, &[(7, 5)]));

    let actions = manager.handle_job_completed(1, 6, 0);
    assert_eq!(actions.len(), 2);
    assert!(is_completed(&actions[0], 1, 6));
    assert!(is_queue_empty(&actions[1]));
}

#[test]
fn jobs_wait_while_the_workers_are_busy() {
    let mut manager = Manager::new(1);
    let actions = manager.try_add_job(leaf(1, 10), 1);
    assert!(actions.is_empty());
    let actions = manager.try_add_job(leaf(2, 20), 1);
    assert!(actions.is_empty());
    // Completing a job that never ran changes nothing.
    let actions = manager.handle_job_completed(1, 3, 0);
    assert!(actions.is_empty());
    // Once the workers have room, the next addition hands out the first waiting job only.
    let actions = manager.try_add_job(leaf(3, 30), 0);
    assert_eq!(actions.len(), 1);
    assert!(is_run(&actions[0], 1, 10, &[]));
}

#[test]
fn ready_jobs_are_handed_out_up_to_the_target() {
    let mut manager = Manager::new(2);
    let job = with(1, 10, vec![(7, leaf(2, 20)), (8, leaf(3, 30)), (9, leaf(4, 40))]);
    let actions = manager.try_add_job(job, 0);
    assert_eq!(actions.len(), 2);
    assert!(is_run(&actions[0], 2, 20, &[]));
    assert!(is_run(&actions[1], 3, 30, &[]));
    let actions = manager.handle_job_completed(2, 1, 1);
    assert_eq!(actions.len(), 2);
    assert!(is_completed(&actions[0], 2, 1));
    assert!(is_run(&actions[1], 4, 40, &[]));
}

#[test]
fn adding_a_known_job_again_changes_nothing() {
    let mut manager = Manager::new(2);
    let actions = manager.try_add_job(leaf(1, 10), 0);
    assert_eq!(actions.len(), 1);
    let actions = manager.try_add_job(leaf(1, 11), 0);
    assert!(actions.is_empty());
}

#[test]
fn completed_dependency_output_is_reused() {
    let mut manager = Manager::new(2);
    manager.try_add_job(leaf(2, 20), 0);
    let actions = manager.handle_job_completed(2, 5, 0);
    assert_eq!(actions.len(), 2);
    assert!(is_completed(&actions[0], 2, 5));
    assert!(is_queue_empty(&actions[1]));
    let actions = manager.try_add_job(with(1, 10, vec![(7, leaf(2, 99))]), 0);
    assert_eq!(actions.len(), 1);
    assert!(is_run(&actions[0], 1, 10, &[(7, 5)]));
}

#[test]
fn removing_a_waiting_job_keeps_it_from_running() {
    let mut manager = Manager::new(1);
    manager.try_add_job(leaf(1, 10), 1);
    let actions = manager.try_remove_job_and_orphaned_dependencies(1);
    assert!(actions.is_empty());
    let actions = manager.try_add_job(leaf(2, 20), 0);
    assert_eq!(actions.len(), 1);
    assert!(is_run(&actions[0], 2, 20, &[]));
}

#[test]
fn removing_a_job_removes_its_orphaned_dependencies() {
    let mut manager = Manager::new(2);
    let job = with(1, 10, vec![(7, leaf(2, 20))]);
    manager.try_add_job(job, 0);
    let actions = manager.try_remove_job_and_orphaned_dependencies(1);
    assert_eq!(actions.len(), 3);
    assert!(matches!(actions[0], ManagerAction::Notify(JobQueueMessage::PendingJobRemoved(1, 10))));
    assert!(matches!(actions[1], ManagerAction::Notify(JobQueueMessage::RunningJobRemoved(2))));
    assert!(is_queue_empty(&actions[2]));
    // The removed dependency's output arrives later and is dropped.
    let actions = manager.handle_job_completed(2, 5, 0);
    assert!(actions.is_empty());
}

#[test]
fn a_job_that_others_depend_on_is_kept() {
    let mut manager = Manager::new(2);
    let job = with(1, 10, vec![(7, leaf(2, 20))]);
    manager.try_add_job(job, 0);
    let actions = manager.try_remove_job_and_orphaned_dependencies(2);
    assert!(actions.is_empty());
    let actions = manager.handle_job_completed(2, 5, 0);
    assert_eq!(actions.len(), 2);
    assert!(is_run(&actions[1], 1, 10, &[(7, 5)]));
}

#[test]
fn a_shared_dependency_stays_while_a_job_needs_it() {
    let mut manager = Manager::new(4);
    manager.try_add_job(with(1, 10, vec![(7, leaf(3, 30))]), 0);
    manager.try_add_job(with(2, 20, vec![(8, leaf(3, 31))]), 1);
    let actions = manager.try_remove_job_and_orphaned_dependencies(1);
    assert_eq!(actions.len(), 1);
    assert!(matches!(actions[0], ManagerAction::Notify(JobQueueMessage::PendingJobRemoved(1, 10))));
    let actions = manager.try_remove_job_and_orphaned_dependencies(2);
    assert_eq!(actions.len(), 3);
    assert!(matches!(actions[0], ManagerAction::Notify(JobQueueMessage::PendingJobRemoved(2, 20))));
    assert!(matches!(actions[1], ManagerAction::Notify(JobQueueMessage::RunningJobRemoved(3))));
    assert!(is_queue_empty(&actions[2]));
}

#[test]
fn removing_a_completed_job_hands_its_output_back() {
    let mut manager = Manager::new(2);
    manager.try_add_job(leaf(1, 10), 0);
    manager.handle_job_completed(1, 4, 0);
    let actions = manager.try_remove_job_and_orphaned_dependencies(1);
    assert_eq!(actions.len(), 1);
    assert!(matches!(actions[0], ManagerAction::Notify(JobQueueMessage::CompletedJobRemoved(1, 4))));
    let actions = manager.try_remove_job_and_orphaned_dependencies(1);
    assert!(actions.is_empty());
}

#[test]
fn removal_follows_dependencies_breadth_first() {
    let mut manager = Manager::new(4);
    // Job 1 depends on 2 and 3, and 2 depends on 3 as well.
    let job = with(1, 10, vec![(7, with(2, 20, vec![(8, leaf(3, 30))])), (9, leaf(3, 31))]);
    let actions = manager.try_add_job(job, 0);
    assert_eq!(actions.len(), 1);
    assert!(is_run(&actions[0], 3, 30, &[]));
    let actions = manager.try_remove_job_and_orphaned_dependencies(1);
    assert_eq!(actions.len(), 4);
    assert!(matches!(actions[0], ManagerAction::Notify(JobQueueMessage::PendingJobRemoved(1, 10))));
    assert!(matches!(actions[1], ManagerAction::Notify(JobQueueMessage::PendingJobRemoved(2, 20))));
    assert!(matches!(actions[2], ManagerAction::Notify(JobQueueMessage::RunningJobRemoved(3))));
    assert!(is_queue_empty(&actions[3]));
}

#[test]
fn job_tree_splits_into_its_input_and_dependencies() {
    let tree = with(1, 7, vec![(5, leaf(2, 9)), (6, leaf(3, 11))]);
    assert_eq!(tree.key(), 1);
    let (input, dependencies) = Job::<u32>::into(tree);
    assert_eq!(input, 7);
    assert_eq!(dependencies.len(), 2);
    assert_eq!(dependencies[0].0, 5);
    assert_eq!(dependencies[0].1.key(), 2);
    assert_eq!(dependencies[1].0, 6);
    assert_eq!(dependencies[1].1.key(), 3);
}

#[test]
fn a_job_runs_only_after_all_its_dependencies_completed() {
    let mut manager = Manager::new(4);
    let job = with(1, 10, vec![(7, leaf(2, 20)), (8, leaf(3, 30))]);
    let actions = manager.try_add_job(job, 0);
    assert_eq!(actions.len(), 2);
    assert!(is_run(&actions[0], 2, 20, &[]));
    assert!(is_run(&actions[1], 3, 30, &[]));

    let actions = manager.handle_job_completed(3, 33, 0);
    assert_eq!(actions.len(), 1);
    assert!(is_completed(&actions[0], 3, 33));

    let actions = manager.handle_job_completed(2, 22, 0);
    assert_eq!(actions.len(), 2);
    assert!(is_completed(&actions[0], 2, 22));
    assert!(is_run(&actions[1], 1, 10, &[(8, 33), (7, 22)]));
}
