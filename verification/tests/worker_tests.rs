use files_index::dto::FileDTO;
use files_index::worker::{IndexWorker, WorkerAction, COMMIT_BACKOFF_MS, MAX_COMMIT_ATTEMPTS};

fn record(id: &str, name: &str) -> FileDTO {
    FileDTO {
        file_id: id.to_string(),
        name: name.to_string(),
        file_path: format!("/files/{}", name),
        date_modified: 1_700_000_000,
        metadata: String::new(),
        popularity: None,
    }
}

fn is_attempt_commit(a: &WorkerAction) -> bool {
    matches!(a, WorkerAction::AttemptCommit)
}

#[test]
fn worker_upsert_actions_delete_before_add() {
    let mut w = IndexWorker::new(8);
    let actions = w.on_record(record("f1", "a.txt"));
    assert_eq!(actions.len(), 2);
    match &actions[0] {
        WorkerAction::DeleteByFileId(id) => assert_eq!(id, "f1"),
        other => panic!("expected a delete first, got {:?}", other),
    }
    match &actions[1] {
        WorkerAction::AddDocument(doc) => assert_eq!(doc.name, "a.txt"),
        other => panic!("expected an add second, got {:?}", other),
    }
}

#[test]
fn worker_commits_exactly_at_batch_boundary() {
    let mut w = IndexWorker::new(3);
    let a1 = w.on_record(record("f1", "a"));
    assert_eq!(a1.iter().filter(|a| is_attempt_commit(a)).count(), 0);
    let a2 = w.on_record(record("f2", "b"));
    assert_eq!(a2.iter().filter(|a| is_attempt_commit(a)).count(), 0);
    let a3 = w.on_record(record("f3", "c"));
    assert_eq!(a3.iter().filter(|a| is_attempt_commit(a)).count(), 1);
    assert!(is_attempt_commit(&a3[2]));
    let done = w.on_commit_result(true);
    assert!(done.is_empty());
    // The counter was reset: the next batch boundary is three records away.
    let a4 = w.on_record(record("f4", "d"));
    assert_eq!(a4.iter().filter(|a| is_attempt_commit(a)).count(), 0);
}

#[test]
fn worker_drains_remainder_on_close() {
    let mut w = IndexWorker::new(100);
    w.on_record(record("f1", "a"));
    w.on_record(record("f2", "b"));
    let actions = w.on_close();
    assert_eq!(actions.len(), 1);
    assert!(is_attempt_commit(&actions[0]));
    let after = w.on_commit_result(true);
    assert!(after.is_empty());
}

#[test]
fn worker_close_without_pending_commits_nothing() {
    let mut w = IndexWorker::new(4);
    let actions = w.on_close();
    assert!(actions.is_empty());
}

#[test]
fn worker_retries_twice_then_succeeds() {
    assert_eq!(MAX_COMMIT_ATTEMPTS, 3);
    let mut w = IndexWorker::new(1);
    let first = w.on_record(record("f1", "a"));
    assert!(is_attempt_commit(&first[2]));

    // First failure: one backoff, one retry.
    let r1 = w.on_commit_result(false);
    assert_eq!(r1.len(), 2);
    match &r1[0] {
        WorkerAction::Backoff(ms) => assert_eq!(*ms, COMMIT_BACKOFF_MS),
        other => panic!("expected a backoff, got {:?}", other),
    }
    assert!(is_attempt_commit(&r1[1]));

    // Second failure: one more retry — the last one allowed.
    let r2 = w.on_commit_result(false);
    assert_eq!(r2.len(), 2);
    assert!(is_attempt_commit(&r2[1]));

    // Third attempt succeeds: no further actions.
    let r3 = w.on_commit_result(true);
    assert!(r3.is_empty());
}

#[test]
fn worker_reports_failure_after_exhausted_retries() {
    let mut w = IndexWorker::new(1);
    w.on_record(record("f1", "a"));
    w.on_commit_result(false);
    w.on_commit_result(false);
    let last = w.on_commit_result(false);
    assert_eq!(last.len(), 1);
    assert!(matches!(last[0], WorkerAction::ReportCommitFailure));
    // The worker keeps running: the next record is accepted as usual.
    let next = w.on_record(record("f2", "b"));
    assert_eq!(next.len(), 3);
}
