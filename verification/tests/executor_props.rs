use crank_scheduler::executor::{ApplyOutcome, ExecutorState};

#[test]
fn first_submission_commits() {
    let mut exec = ExecutorState::new();
    assert_eq!(exec.submit(7, 0), ApplyOutcome::Committed);
    assert_eq!(exec.ledger.len(), 1);
    assert!(exec.contains_commit(7, 0));
    assert!(!exec.contains_commit(7, 1));
    assert!(!exec.contains_commit(8, 0));
}

#[test]
fn resubmission_changes_nothing() {
    let mut exec = ExecutorState::new();
    exec.submit(7, 0);
    let before = exec.ledger.clone();
    assert_eq!(exec.submit(7, 0), ApplyOutcome::AlreadyCommitted);
    assert_eq!(exec.ledger, before, "applying a batch twice equals applying it once");
}

#[test]
fn history_lists_one_task_in_order() {
    let mut exec = ExecutorState::new();
    exec.submit(7, 0);
    exec.submit(9, 0);
    exec.submit(7, 1);
    let history = exec.history_for(7);
    assert_eq!(history.len(), 2);
    assert_eq!((history[0].task_key, history[0].seq), (7, 0));
    assert_eq!((history[1].task_key, history[1].seq), (7, 1));
    assert!(exec.history_for(11).is_empty());
}

#[test]
fn distinct_sequence_numbers_commit_separately() {
    let mut exec = ExecutorState::new();
    assert_eq!(exec.submit(7, 0), ApplyOutcome::Committed);
    assert_eq!(exec.submit(7, 1), ApplyOutcome::Committed);
    assert_eq!(exec.submit(9, 0), ApplyOutcome::Committed);
    assert_eq!(exec.ledger.len(), 3);
}
