use files_index::config::FileIndexerConfig;
use files_index::dto::QueryDTOInput;
use files_index::errors::IndexError;
use files_index::facet::windows_path_to_facet;
use files_index::schema::{create_schema, lookup_field, SchemaField};
use files_index::text::{term_match_str, text_match_str};

#[test]
fn schema_declares_the_six_fields_in_order() {
    let fields = create_schema();
    assert_eq!(
        fields,
        vec![
            SchemaField::FileId,
            SchemaField::Name,
            SchemaField::DateModified,
            SchemaField::Path,
            SchemaField::Metadata,
            SchemaField::Popularity,
        ]
    );
    let names: Vec<&str> = fields.iter().map(|f| f.name()).collect();
    assert_eq!(
        names,
        vec!["file_id", "name", "date_modified", "path", "metadata", "popularity"]
    );
}

#[test]
fn every_declared_name_looks_up_to_its_field() {
    for field in create_schema() {
        assert_eq!(lookup_field(field.name()), Some(field));
    }
}

#[test]
fn undeclared_names_look_up_to_nothing() {
    assert_eq!(lookup_field("file_name"), None);
    assert_eq!(lookup_field(""), None);
    assert_eq!(lookup_field("Popularity"), None);
}

#[test]
fn popularity_is_a_stored_fast_field_only() {
    let pop = SchemaField::Popularity.capability();
    assert!(pop.stored && pop.fast && !pop.indexed);
    let name = SchemaField::Name.capability();
    assert!(name.stored && name.indexed && !name.fast);
}

#[test]
fn windows_paths_become_rooted_facets() {
    assert_eq!(windows_path_to_facet("C:\\docs\\report.txt"), "/C:/docs/report.txt");
    assert_eq!(windows_path_to_facet("/already/rooted"), "/already/rooted");
    assert_eq!(windows_path_to_facet("relative/path"), "/relative/path");
    assert_eq!(windows_path_to_facet("\\leading\\slash"), "/leading/slash");
    assert_eq!(windows_path_to_facet(""), "/");
}

#[test]
fn text_matching_folds_case_and_respects_token_boundaries() {
    assert!(text_match_str("report", "REPORT.txt"));
    assert!(text_match_str("Report", "quarterly report"));
    assert!(!text_match_str("port", "report.txt"));
    assert!(!text_match_str("report", "reporting.txt"));
    assert!(text_match_str("txt report", "summary.txt"));
    assert!(!text_match_str("", "anything"));
}

#[test]
fn facet_conversion_keeps_every_other_character() {
    assert_eq!(windows_path_to_facet("docs\\r\u{e9}sum\u{e9}.txt"), "/docs/r\u{e9}sum\u{e9}.txt");
}

#[test]
fn digit_runs_are_tokens() {
    assert!(text_match_str("2024", "report-2024.txt"));
    assert!(!text_match_str("2024", "report-20245.txt"));
}

#[test]
fn term_matching_requires_the_whole_token() {
    assert!(term_match_str("finance", "tagged finance docs"));
    assert!(term_match_str("finance", "FINANCE"));
    assert!(!term_match_str("fin", "finance"));
    assert!(!term_match_str("finance docs", "tagged finance docs"));
}

#[test]
fn config_requires_a_positive_batch_size() {
    let bad = FileIndexerConfig {
        tantivy_out_path: "/tmp/idx".to_string(),
        buffer_size: 50_000_000,
        indexer_batch_size: 0,
    };
    assert!(!bad.is_well_formed());
    let good = FileIndexerConfig { indexer_batch_size: 256, ..bad };
    assert!(good.is_well_formed());
}

#[test]
fn store_and_schema_errors_are_fatal_the_rest_are_not() {
    assert!(IndexError::StoreInit.is_fatal());
    assert!(IndexError::FieldLookup.is_fatal());
    assert!(!IndexError::DeleteBeforeInsert.is_fatal());
    assert!(!IndexError::Commit.is_fatal());
    assert!(!IndexError::QueryParse.is_fatal());
    assert_eq!(IndexError::Commit.message(), "commit failed");
    assert_eq!(IndexError::QueryParse.message(), "malformed query string");
}

#[test]
fn query_dto_carries_its_text_unchanged() {
    let dto = QueryDTOInput { search_term: "report".to_string(), query: "name".to_string() };
    assert_eq!(dto.search_term, "report");
    assert_eq!(dto.query, "name");
}
