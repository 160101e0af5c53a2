use files_index::dto::FileDTO;
use files_index::index_model::IndexModel;
use files_index::query::{
    build_plan, matches_plan, search_committed, DateRange, Occur, SearchParams, SubQuery,
};

fn doc(id: &str, name: &str, path: &str, date: u64, meta: &str, pop: Option<u64>) -> FileDTO {
    FileDTO {
        file_id: id.to_string(),
        name: name.to_string(),
        file_path: path.to_string(),
        date_modified: date,
        metadata: meta.to_string(),
        popularity: pop,
    }
}

fn no_params() -> SearchParams {
    SearchParams { name: None, file_path: None, date_range: None, metadata: None }
}

#[test]
fn plan_has_one_clause_per_present_field() {
    let params = SearchParams {
        name: Some("report".to_string()),
        file_path: Some("docs".to_string()),
        date_range: Some(DateRange { start: 10, end: 20 }),
        metadata: Some("finance".to_string()),
    };
    let plan = build_plan(&params);
    assert_eq!(plan.len(), 4);
    assert!(matches!(plan[0], (Occur::Should, SubQuery::PathText(_))));
    assert!(matches!(plan[1], (Occur::Should, SubQuery::NameText(_))));
    match &plan[2] {
        (Occur::Must, SubQuery::ModifiedRange(s, e)) => {
            assert_eq!(*s, 10);
            assert_eq!(*e, 20);
        }
        other => panic!("expected the range clause, got {:?}", other),
    }
    match &plan[3] {
        (Occur::Must, SubQuery::MetadataTerm(t)) => assert_eq!(t, "finance"),
        other => panic!("expected the metadata clause, got {:?}", other),
    }
}

#[test]
fn empty_params_build_empty_plan_matching_everything() {
    let params = no_params();
    assert!(params.is_unconstrained());
    let plan = build_plan(&params);
    assert!(plan.is_empty());
    let d = doc("f1", "x", "/x", 5, "", None);
    assert!(matches_plan(&plan, &d));
}

#[test]
fn range_filter_excludes_outside_dates() {
    // A hard date filter rejects a document outside the range no matter
    // how well its text fields match.
    let params = SearchParams {
        name: Some("report".to_string()),
        file_path: None,
        date_range: Some(DateRange { start: 100, end: 200 }),
        metadata: None,
    };
    let plan = build_plan(&params);
    let matching_text = doc("f1", "report.txt", "/docs/report.txt", 300, "", None);
    assert!(!matches_plan(&plan, &matching_text));
    let early = doc("f2", "report.txt", "/docs/report.txt", 99, "", None);
    assert!(!matches_plan(&plan, &early));
    let inside = doc("f3", "report.txt", "/docs/report.txt", 150, "", None);
    assert!(matches_plan(&plan, &inside));
    // The bounds are inclusive.
    let at_start = doc("f4", "report.txt", "/d", 100, "", None);
    assert!(matches_plan(&plan, &at_start));
    let at_end = doc("f5", "report.txt", "/d", 200, "", None);
    assert!(matches_plan(&plan, &at_end));
}

#[test]
fn metadata_term_is_a_hard_filter() {
    let params = SearchParams {
        name: Some("report".to_string()),
        file_path: None,
        date_range: None,
        metadata: Some("finance".to_string()),
    };
    let plan = build_plan(&params);
    let tagged = doc("f1", "report.txt", "/d", 1, "finance quarterly", None);
    assert!(matches_plan(&plan, &tagged));
    let untagged = doc("f2", "report.txt", "/d", 1, "personal", None);
    assert!(!matches_plan(&plan, &untagged));
}

#[test]
fn missing_popularity_documents_are_still_returned() {
    let mut m = IndexModel::new();
    m.upsert(doc("f1", "report.txt", "/docs/report.txt", 1, "", None));
    m.commit_succeeded();
    let params = SearchParams {
        name: Some("report".to_string()),
        file_path: None,
        date_range: None,
        metadata: None,
    };
    let results = search_committed(&m, &params);
    assert_eq!(results.len(), 1);
    assert_eq!(results[0].popularity, None);
    assert_eq!(files_index::effective_popularity(results[0].popularity), 1000);
}

#[test]
fn end_to_end_ingest_then_query_by_name() {
    // Ingest one record, commit, query by name: exactly that document
    // comes back with all its stored fields.
    let mut m = IndexModel::new();
    m.upsert(doc(
        "a1",
        "report.txt",
        "/docs/report.txt",
        1_700_000_000,
        "finance",
        Some(5000),
    ));
    m.commit_succeeded();
    let params = SearchParams {
        name: Some("report".to_string()),
        file_path: None,
        date_range: None,
        metadata: None,
    };
    let results = search_committed(&m, &params);
    assert_eq!(results.len(), 1);
    let hit = &results[0];
    assert_eq!(hit.file_id, "a1");
    assert_eq!(hit.name, "report.txt");
    assert_eq!(hit.file_path, "/docs/report.txt");
    assert_eq!(hit.date_modified, 1_700_000_000);
    assert_eq!(hit.metadata, "finance");
    assert_eq!(hit.popularity, Some(5000));

    // A query that matches nothing returns an empty result, not an error.
    let none = SearchParams {
        name: Some("ledger".to_string()),
        file_path: None,
        date_range: None,
        metadata: None,
    };
    assert!(search_committed(&m, &none).is_empty());
}

#[test]
fn query_after_upsert_sees_only_latest_document() {
    let mut m = IndexModel::new();
    m.upsert(doc("u1", "a.txt", "/files/a.txt", 1, "", None));
    m.commit_succeeded();
    m.upsert(doc("u1", "b.txt", "/files/b.txt", 2, "", None));
    m.commit_succeeded();
    let params = SearchParams {
        name: Some("txt".to_string()),
        file_path: None,
        date_range: None,
        metadata: None,
    };
    let results = search_committed(&m, &params);
    assert_eq!(results.len(), 1);
    assert_eq!(results[0].name, "b.txt");
}

#[test]
fn path_clause_is_a_ranking_signal_not_a_filter() {
    // With another SHOULD clause present, a document matching only the
    // name clause is still selected.
    let params = SearchParams {
        name: Some("report".to_string()),
        file_path: Some("archive".to_string()),
        date_range: None,
        metadata: None,
    };
    let plan = build_plan(&params);
    let elsewhere = doc("f1", "report.txt", "/docs/report.txt", 1, "", None);
    assert!(matches_plan(&plan, &elsewhere));
    let neither = doc("f2", "notes.md", "/docs/notes.md", 1, "", None);
    assert!(!matches_plan(&plan, &neither));
}
