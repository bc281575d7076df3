use maisou::indexer::{ContentAction, FileIndexRecord};
use maisou::search::{
    build_file_name_search_index, search_file_name_index, search_file_names, SearchQuery,
    HIT_SOURCE_FILENAME,
};
use std::time::Instant;

fn record(path: &str, name: &str, extension: &str) -> FileIndexRecord {
    FileIndexRecord {
        physical_path: path.to_string(),
        file_name: name.to_string(),
        extension: extension.to_string(),
        modified_at: 1,
        size_bytes: 10,
        content_action: ContentAction::FilenameOnly,
    }
}

#[test]
fn filters_filename_index_by_field_directives() {
    let records = vec![
        record("/work/roadmap.md", "roadmap.md", ".md"),
        record("/work/prompt.json", "prompt.json", ".json"),
    ];
    let query = SearchQuery {
        name: Some("road".to_string()),
        content: None,
        extension: Some("md".to_string()),
        text: None,
    };

    let hits = search_file_names(&records, &query, 20);

    assert_eq!(hits.len(), 1);
    assert_eq!(hits[0].file_name, "roadmap.md");
}

#[test]
fn filename_search_stays_under_twenty_milliseconds_for_local_window() {
    let records: Vec<FileIndexRecord> = (0..10_000)
        .map(|index| {
            let extension = if index % 2 == 0 { ".md" } else { ".json" };
            record(
                &format!("/work/project/file-{index}{extension}"),
                &format!("file-{index}{extension}"),
                extension,
            )
        })
        .collect();
    let query = SearchQuery {
        name: Some("file-99".to_string()),
        content: None,
        extension: Some("md".to_string()),
        text: None,
    };

    let index = build_file_name_search_index(&records);
    let started_at = Instant::now();
    let hits = search_file_name_index(&index, &query, 50);
    let elapsed = started_at.elapsed();

    assert!(!hits.is_empty());
    assert!(
        elapsed.as_millis() <= 20,
        "filename search took {}ms",
        elapsed.as_millis()
    );
}

// ---------------------------------------------------------------------------
// Further cases
// ---------------------------------------------------------------------------

#[test]
fn text_directive_matches_name_or_path_ignoring_ascii_case() {
    let records = vec![
        record("/work/Projects/alpha.md", "alpha.md", ".md"),
        record("/work/other/beta.md", "BETA.md", ".md"),
        record("/work/other/gamma.md", "gamma.md", ".md"),
    ];
    let by_path = SearchQuery {
        name: None,
        content: None,
        extension: None,
        text: Some("projects".to_string()),
    };
    let hits = search_file_names(&records, &by_path, 10);
    assert_eq!(hits.len(), 1);
    assert_eq!(hits[0].file_name, "alpha.md");
    assert_eq!(hits[0].hit_source, HIT_SOURCE_FILENAME);
    assert_eq!(hits[0].snippet, None);

    let by_name = SearchQuery {
        name: Some("Beta".to_string()),
        content: None,
        extension: None,
        text: None,
    };
    let hits = search_file_names(&records, &by_name, 10);
    assert_eq!(hits.len(), 1);
    assert_eq!(hits[0].physical_path, "/work/other/beta.md");
}

#[test]
fn extension_directive_ignores_leading_dots_whitespace_and_case() {
    let records = vec![
        record("/work/a.MD", "a.MD", ".MD"),
        record("/work/b.json", "b.json", ".json"),
    ];
    let query = SearchQuery {
        name: None,
        content: None,
        extension: Some(" ..md ".to_string()),
        text: None,
    };
    let hits = search_file_names(&records, &query, 10);
    assert_eq!(hits.len(), 1);
    assert_eq!(hits[0].file_name, "a.MD");
}

#[test]
fn limit_keeps_the_first_matches_in_order() {
    let records = vec![
        record("/w/1.md", "1.md", ".md"),
        record("/w/2.md", "2.md", ".md"),
        record("/w/3.md", "3.md", ".md"),
    ];
    let query = SearchQuery {
        name: None,
        content: None,
        extension: None,
        text: None,
    };
    let hits = search_file_names(&records, &query, 2);
    assert_eq!(hits.len(), 2);
    assert_eq!(hits[0].file_name, "1.md");
    assert_eq!(hits[1].file_name, "2.md");
    assert!(search_file_names(&records, &query, 0).is_empty());
}

#[test]
fn unicode_extension_is_lowercased_beyond_ascii() {
    let records = vec![record("/w/x.ÄBC", "x.ÄBC", ".ÄBC")];
    let query = SearchQuery {
        name: None,
        content: None,
        extension: Some("äbc".to_string()),
        text: None,
    };
    assert_eq!(search_file_names(&records, &query, 5).len(), 1);
}

#[test]
fn filename_window_lists_matches_in_record_order() {
    let records: Vec<FileIndexRecord> = (0..10_000)
        .map(|index| {
            let extension = if index % 2 == 0 { ".md" } else { ".json" };
            record(
                &format!("/work/project/file-{index}{extension}"),
                &format!("file-{index}{extension}"),
                extension,
            )
        })
        .collect();
    let query = SearchQuery {
        name: Some("file-99".to_string()),
        content: None,
        extension: Some("md".to_string()),
        text: None,
    };
    let hits = search_file_name_index(&build_file_name_search_index(&records), &query, 50);
    assert_eq!(hits.len(), 50);
    assert_eq!(hits[0].file_name, "file-990.md");
    assert_eq!(hits[4].file_name, "file-998.md");
    assert_eq!(hits[5].file_name, "file-9900.md");
    assert_eq!(hits[49].file_name, "file-9988.md");
}
