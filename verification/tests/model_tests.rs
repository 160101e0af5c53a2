use files_index::dto::FileDTO;
use files_index::index_model::IndexModel;
use files_index::worker::{IndexWorker, WorkerAction};

fn record(id: &str, name: &str) -> FileDTO {
    FileDTO {
        file_id: id.to_string(),
        name: name.to_string(),
        file_path: format!("/files/{}", name),
        date_modified: 1_700_000_000,
        metadata: String::new(),
        popularity: Some(1000),
    }
}

/// Run the staging actions of one record against the content model, the
/// way the worker's runtime loop would against the real writer.
fn apply_staging(model: &mut IndexModel, actions: Vec<WorkerAction>) -> bool {
    let mut wants_commit = false;
    for action in actions {
        match action {
            WorkerAction::DeleteByFileId(id) => model.delete_by_id(&id),
            WorkerAction::AddDocument(doc) => model.add_document(doc),
            WorkerAction::AttemptCommit => wants_commit = true,
            _ => {}
        }
    }
    wants_commit
}

#[test]
fn upsert_keeps_one_document_per_file_id() {
    let mut m = IndexModel::new();
    m.upsert(record("f1", "a.txt"));
    m.upsert(record("f1", "b.txt"));
    m.upsert(record("f1", "c.txt"));
    m.commit_succeeded();
    let id = "f1".to_string();
    assert_eq!(m.count_by_file_id(&id), 1);
    let doc = m.find_by_file_id(&id).expect("document must exist");
    assert_eq!(doc.name, "c.txt");
}

#[test]
fn upsert_leaves_other_identities_alone() {
    let mut m = IndexModel::new();
    m.upsert(record("f1", "a.txt"));
    m.upsert(record("f2", "b.txt"));
    m.upsert(record("f1", "a2.txt"));
    m.commit_succeeded();
    let other = "f2".to_string();
    assert_eq!(m.count_by_file_id(&other), 1);
    assert_eq!(m.find_by_file_id(&other).unwrap().name, "b.txt");
}

#[test]
fn readers_see_only_committed_state() {
    let mut m = IndexModel::new();
    m.upsert(record("f1", "a.txt"));
    let id = "f1".to_string();
    assert!(m.find_by_file_id(&id).is_none());
    assert_eq!(m.count_by_file_id(&id), 0);
    m.commit_succeeded();
    assert_eq!(m.count_by_file_id(&id), 1);
}

#[test]
fn upsert_scenario_second_ingest_wins() {
    // The same identity ingested twice through the worker, with a commit
    // after each: one document remains, carrying the later name.
    let mut w = IndexWorker::new(1);
    let mut m = IndexModel::new();

    let a1 = w.on_record(record("u1", "a.txt"));
    assert!(apply_staging(&mut m, a1));
    m.commit_succeeded();
    w.on_commit_result(true);

    let a2 = w.on_record(record("u1", "b.txt"));
    assert!(apply_staging(&mut m, a2));
    m.commit_succeeded();
    w.on_commit_result(true);

    let id = "u1".to_string();
    assert_eq!(m.count_by_file_id(&id), 1);
    assert_eq!(m.find_by_file_id(&id).unwrap().name, "b.txt");
}

#[test]
fn retry_scenario_keeps_staged_documents() {
    // Two transient commit failures, then success: nothing staged is
    // lost, and the commit that finally lands covers every document.
    let mut w = IndexWorker::new(2);
    let mut m = IndexModel::new();

    apply_staging(&mut m, w.on_record(record("r1", "a.txt")));
    let boundary = w.on_record(record("r2", "b.txt"));
    assert!(apply_staging(&mut m, boundary));

    let retry1 = w.on_commit_result(false);
    assert_eq!(retry1.len(), 2);
    let retry2 = w.on_commit_result(false);
    assert_eq!(retry2.len(), 2);
    // Success at the third attempt; the model commits what was staged.
    assert!(w.on_commit_result(true).is_empty());
    m.commit_succeeded();

    assert_eq!(m.count_by_file_id(&"r1".to_string()), 1);
    assert_eq!(m.count_by_file_id(&"r2".to_string()), 1);
}
