use maisou::content_store::ContentDocument;
use maisou::indexer::{
    first_layer_scan, ContentAction, ContentIndexPolicy, FileIndexRecord, FileSystemEntry,
    FsEvent, IndexerPolicy,
};
use maisou::runtime_index::{
    content_read_path, content_read_wanted, indexable_content, IndexBuildSummary,
    LocalSearchIndex, LocalSearchIndexRecord, RuntimeIndexState, StoreAction,
};
use maisou::search::SearchQuery;

fn test_policy_with_roots(scan_roots: Vec<String>, opt_in_watch_roots: Vec<String>) -> IndexerPolicy {
    IndexerPolicy {
        physical_id: "local.indexer.policy".to_string(),
        professional_description: "Runtime index test policy".to_string(),
        scan_roots,
        opt_in_watch_roots,
        exclude_path_fragments: vec!["/.git/".to_string(), "/node_modules/".to_string()],
        max_parse_size_bytes: 52_428_800,
        text_extensions: vec![".txt".to_string(), ".md".to_string(), ".json".to_string()],
        encrypted_extensions: vec![".gpg".to_string(), ".enc".to_string()],
        parse_error_code: "Parse_Error".to_string(),
        content_index: ContentIndexPolicy {
            enabled: true,
            batch_size: 64,
            snippet_radius: 500,
            default_limit: 50,
        },
    }
}

fn name_query(name: &str) -> SearchQuery {
    SearchQuery {
        name: Some(name.to_string()),
        content: None,
        extension: Some("md".to_string()),
        text: None,
    }
}

fn content_query(needle: &str) -> SearchQuery {
    SearchQuery {
        name: None,
        content: Some(needle.to_string()),
        extension: Some("md".to_string()),
        text: None,
    }
}

#[test]
fn plain_text_query_falls_back_to_content_when_filename_does_not_match() {
    let policy = test_policy_with_roots(vec!["/tmp".to_string()], vec!["/tmp".to_string()]);
    let records = vec![FileIndexRecord {
        physical_path: "/tmp/notes/architecture.md".to_string(),
        file_name: "architecture.md".to_string(),
        extension: ".md".to_string(),
        modified_at: 1,
        size_bytes: 10,
        content_action: ContentAction::QueueParse,
    }];
    let index = LocalSearchIndex::from_parts(
        vec![LocalSearchIndexRecord::new(
            records[0].clone(),
            Some("Everything style instant search".to_string()),
        )],
        policy.content_index.snippet_radius as usize,
    );

    let hits = index.search(
        &SearchQuery {
            name: None,
            content: None,
            extension: None,
            text: Some("instant".to_string()),
        },
        10,
    );

    assert_eq!(policy.parse_error_code, "Parse_Error");
    assert_eq!(hits.len(), 1);
    assert_eq!(hits[0].file_name, "architecture.md");
    assert_eq!(hits[0].hit_source, "content");
    assert_eq!(
        hits[0].snippet.as_deref(),
        Some("Everything style instant search")
    );
}

#[test]
fn plain_text_query_merges_filename_hits_before_content_hits_and_deduplicates_paths() {
    let policy = test_policy_with_roots(vec!["/tmp".to_string()], vec!["/tmp".to_string()]);
    let index = LocalSearchIndex::from_parts(
        vec![
            LocalSearchIndexRecord::new(
                FileIndexRecord {
                    physical_path: "/tmp/notes/alpha.md".to_string(),
                    file_name: "alpha instant.md".to_string(),
                    extension: ".md".to_string(),
                    modified_at: 1,
                    size_bytes: 10,
                    content_action: ContentAction::QueueParse,
                },
                Some("instant content also matches".to_string()),
            ),
            LocalSearchIndexRecord::new(
                FileIndexRecord {
                    physical_path: "/tmp/notes/beta.md".to_string(),
                    file_name: "beta.md".to_string(),
                    extension: ".md".to_string(),
                    modified_at: 1,
                    size_bytes: 10,
                    content_action: ContentAction::QueueParse,
                },
                Some("instant only lives in content".to_string()),
            ),
        ],
        policy.content_index.snippet_radius as usize,
    );

    let hits = index.search(
        &SearchQuery {
            name: None,
            content: None,
            extension: Some("md".to_string()),
            text: Some("instant".to_string()),
        },
        10,
    );

    assert_eq!(hits.len(), 2);
    assert_eq!(hits[0].file_name, "alpha instant.md");
    assert_eq!(hits[0].hit_source, "content");
    assert!(hits[0].snippet.is_some());
    assert_eq!(hits[1].file_name, "beta.md");
    assert_eq!(hits[1].hit_source, "content");
    assert!(hits[1].snippet.is_some());
}

// ---------------------------------------------------------------------------
// Rebuilds and incremental updates, with the reads handed in
// ---------------------------------------------------------------------------

#[test]
fn rebuild_indexes_text_content_and_skips_encrypted_files() {
    let policy = test_policy_with_roots(vec!["/root".to_string()], vec!["/root".to_string()]);
    let files = first_layer_scan(
        &policy,
        vec![
            FileSystemEntry::file("/root/notes/roadmap.md", 37, 1),
            FileSystemEntry::file("/root/notes/binary.enc", 6, 1),
        ],
        None,
    );
    let reads: Vec<Option<Vec<u8>>> = files
        .iter()
        .map(|file| {
            if content_read_wanted(file, true) {
                Some(b"Task 5 makes local content searchable".to_vec())
            } else {
                None
            }
        })
        .collect();

    let (index, summary, documents) =
        LocalSearchIndex::from_records_with_content_store(&policy, files, reads, true);
    let hits = index.search(&content_query("local content"), 10);

    assert_eq!(summary.indexed_files, 2);
    assert_eq!(summary.content_files, 1);
    assert_eq!(summary.parse_errors, 0);
    assert_eq!(hits.len(), 1);
    assert_eq!(hits[0].file_name, "roadmap.md");
    assert_eq!(documents.len(), 1);
    assert_eq!(documents[0].physical_path, "/root/notes/roadmap.md");
    assert_eq!(documents[0].content, "Task 5 makes local content searchable");
}

#[test]
fn suspended_rebuild_keeps_file_names_without_content() {
    let policy = test_policy_with_roots(vec!["/root".to_string()], vec!["/root".to_string()]);
    let files = first_layer_scan(
        &policy,
        vec![FileSystemEntry::file("/root/notes/roadmap.md", 10, 1)],
        None,
    );
    assert!(!content_read_wanted(&files[0], false));

    let (index, summary, documents) = LocalSearchIndex::from_records_with_content_store(
        &policy,
        files,
        vec![Some(b"Suspended content should not index".to_vec())],
        false,
    );

    assert_eq!(summary.indexed_files, 1);
    assert_eq!(summary.content_files, 0);
    assert!(documents.is_empty());
    assert_eq!(index.search(&name_query("roadmap"), 10).len(), 1);
    assert!(index.search(&content_query("Suspended content"), 10).is_empty());
}

#[test]
fn rebuild_counts_failed_reads_and_malformed_text_as_parse_errors() {
    let policy = test_policy_with_roots(vec!["/root".to_string()], vec!["/root".to_string()]);
    let files = first_layer_scan(
        &policy,
        vec![
            FileSystemEntry::file("/root/a.md", 3, 1),
            FileSystemEntry::file("/root/b.md", 3, 1),
            FileSystemEntry::file("/root/c.pdf", 3, 1),
        ],
        None,
    );
    let (_index, summary) = LocalSearchIndex::from_records(
        &policy,
        files,
        vec![None, Some(vec![0xff, 0xfe, 0xfd]), Some(b"pdf".to_vec())],
    );
    assert_eq!(summary.indexed_files, 3);
    assert_eq!(summary.content_files, 0);
    assert_eq!(summary.parse_errors, 3);
    assert_eq!(summary.content_queue_depth, 0);
}

#[test]
fn indexable_content_reads_only_wanted_text_files() {
    let policy = test_policy_with_roots(vec!["/root".to_string()], vec!["/root".to_string()]);
    let files = first_layer_scan(
        &policy,
        vec![
            FileSystemEntry::file("/root/a.md", 3, 1),
            FileSystemEntry::file("/root/b.gpg", 3, 1),
        ],
        None,
    );
    assert_eq!(
        indexable_content(&policy, &files[0], true, Some(&b"abc"[..])),
        (Some("abc".to_string()), 0)
    );
    assert_eq!(indexable_content(&policy, &files[0], true, None), (None, 1));
    assert_eq!(indexable_content(&policy, &files[0], false, Some(&b"abc"[..])), (None, 0));
    assert_eq!(indexable_content(&policy, &files[1], true, Some(&b"abc"[..])), (None, 0));
}

fn created(path: &str, size: u64, modified_at: u64) -> FsEvent {
    FsEvent::Created {
        path: path.to_string(),
        size_bytes: size,
        modified_at,
    }
}

#[test]
fn incremental_created_text_file_updates_filename_and_content_store() {
    let policy = test_policy_with_roots(vec!["/root".to_string()], vec!["/root".to_string()]);
    let mut state = RuntimeIndexState::default();
    let content = "Created AnyTXT content joins the full text index";
    let event = created("/root/notes/created.md", content.len() as u64, 1);
    let path = content_read_path(&policy, &event, true, None).expect("the file is to be read");
    assert_eq!(path, "/root/notes/created.md");

    let (summary, action) =
        state.apply_fs_event(&policy, event, true, None, Some(content.as_bytes()));

    assert_eq!(summary.indexed_files, 1);
    assert_eq!(summary.content_files, 1);
    assert_eq!(summary.parse_errors, 0);
    assert_eq!(state.search(&name_query("created"), 10).len(), 1);
    assert_eq!(
        action,
        Some(StoreAction::Upsert(ContentDocument {
            physical_path: "/root/notes/created.md".to_string(),
            file_name: "created.md".to_string(),
            extension: ".md".to_string(),
            modified_at: 1,
            content: content.to_string(),
        }))
    );
}

#[test]
fn incremental_modified_text_file_replaces_the_record() {
    let policy = test_policy_with_roots(vec!["/root".to_string()], vec!["/root".to_string()]);
    let mut state = RuntimeIndexState::default();
    state.apply_fs_event(
        &policy,
        created("/root/notes/updated.md", 40, 1),
        true,
        None,
        Some(&b"Old incremental content should disappear"[..]),
    );
    let (summary, _action) = state.apply_fs_event(
        &policy,
        FsEvent::Modified {
            path: "/root/notes/updated.md".to_string(),
            size_bytes: 44,
            modified_at: 2,
        },
        true,
        None,
        Some(&b"New incremental content should be searchable"[..]),
    );

    assert_eq!(summary.indexed_files, 1);
    assert_eq!(summary.content_files, 1);
    assert!(state.search(&content_query("Old incremental"), 10).is_empty());
    let hits = state.search(&content_query("New incremental"), 10);
    assert_eq!(hits.len(), 1);
    assert_eq!(hits[0].modified_at, 2);
}

#[test]
fn incremental_removed_file_leaves_no_record_and_deletes_store_row() {
    let policy = test_policy_with_roots(vec!["/root".to_string()], vec!["/root".to_string()]);
    let mut state = RuntimeIndexState::default();
    state.apply_fs_event(
        &policy,
        created("/root/notes/removed.md", 47, 1),
        true,
        None,
        Some(&b"Removed incremental content leaves no index row"[..]),
    );
    let (summary, action) = state.apply_fs_event(
        &policy,
        FsEvent::Removed {
            path: "/root/notes/removed.md".to_string(),
        },
        true,
        None,
        None,
    );

    assert_eq!(summary.indexed_files, 0);
    assert_eq!(summary.content_files, 0);
    assert!(state.search(&name_query("removed"), 10).is_empty());
    assert_eq!(
        action,
        Some(StoreAction::Delete("/root/notes/removed.md".to_string()))
    );
}

#[test]
fn incremental_suspended_update_keeps_filename_without_content_parse() {
    let policy = test_policy_with_roots(vec!["/root".to_string()], vec!["/root".to_string()]);
    let mut state = RuntimeIndexState::default();
    let event = created("/root/notes/suspended.md", 48, 1);
    assert_eq!(content_read_path(&policy, &event, false, None), None);

    let (summary, action) = state.apply_fs_event(&policy, event, false, None, None);

    assert_eq!(summary.indexed_files, 1);
    assert_eq!(summary.content_files, 0);
    assert_eq!(state.search(&name_query("suspended"), 10).len(), 1);
    assert!(state.search(&content_query("Suspended incremental"), 10).is_empty());
    assert_eq!(state.summary().content_files, 0);
    assert_eq!(
        action,
        Some(StoreAction::Delete("/root/notes/suspended.md".to_string()))
    );
}

#[test]
fn events_outside_watch_roots_change_nothing() {
    let policy = test_policy_with_roots(vec!["/root".to_string()], vec!["/root/notes".to_string()]);
    let mut state = RuntimeIndexState::default();
    let event = created("/elsewhere/x.md", 1, 1);
    assert_eq!(content_read_path(&policy, &event, true, None), None);
    let (summary, action) = state.apply_fs_event(&policy, event, true, None, None);
    assert_eq!(
        summary,
        IndexBuildSummary {
            indexed_files: 0,
            content_files: 0,
            parse_errors: 0,
            content_queue_depth: 0,
        }
    );
    assert_eq!(action, None);
}

#[test]
fn unreadable_watched_file_counts_one_parse_error() {
    let policy = test_policy_with_roots(vec!["/root".to_string()], vec!["/root".to_string()]);
    let mut state = RuntimeIndexState::default();
    let (summary, action) =
        state.apply_fs_event(&policy, created("/root/gone.md", 1, 1), true, None, None);
    assert_eq!(summary.indexed_files, 1);
    assert_eq!(summary.parse_errors, 1);
    assert_eq!(action, Some(StoreAction::Delete("/root/gone.md".to_string())));
}

#[test]
fn repeated_updates_keep_one_record_per_path() {
    let policy = test_policy_with_roots(vec!["/root".to_string()], vec!["/root".to_string()]);
    let mut state = RuntimeIndexState::default();
    for stamp in 1..4u64 {
        state.apply_fs_event(&policy, created("/root/a.md", 1, stamp), true, None, Some(&b"a"[..]));
        state.apply_fs_event(&policy, created("/root/b.md", 1, stamp), true, None, Some(&b"b"[..]));
    }
    assert_eq!(state.summary().indexed_files, 2);
    let all = SearchQuery {
        name: None,
        content: None,
        extension: None,
        text: None,
    };
    let hits = state.search(&all, 10);
    assert_eq!(hits.len(), 2);
    assert_eq!(hits[0].file_name, "a.md");
    assert_eq!(hits[1].file_name, "b.md");
}

#[test]
fn rebuild_installs_the_new_index() {
    let policy = test_policy_with_roots(vec!["/root".to_string()], vec!["/root".to_string()]);
    let mut state = RuntimeIndexState::default();
    let files = first_layer_scan(&policy, vec![FileSystemEntry::file("/root/x.md", 1, 1)], None);
    let summary = state.rebuild(LocalSearchIndex::from_records(&policy, files, vec![Some(b"x".to_vec())]));
    assert_eq!(summary.indexed_files, 1);
    assert_eq!(summary.content_files, 1);
    assert_eq!(state.summary().indexed_files, 1);
}

#[test]
fn content_query_limit_and_snippet_ellipses() {
    let mut content = String::new();
    for _ in 0..20 {
        content.push_str("filler ");
    }
    content.push_str("needle");
    for _ in 0..20 {
        content.push_str(" filler");
    }
    let file = FileIndexRecord {
        physical_path: "/root/long.md".to_string(),
        file_name: "long.md".to_string(),
        extension: ".md".to_string(),
        modified_at: 1,
        size_bytes: 10,
        content_action: ContentAction::QueueParse,
    };
    let index = LocalSearchIndex::from_parts(vec![LocalSearchIndexRecord::new(file, Some(content))], 7);
    let hits = index.search(&content_query("NEEDLE"), 10);
    assert_eq!(hits.len(), 1);
    assert_eq!(hits[0].snippet.as_deref(), Some("...filler needle filler..."));
    assert!(index.search(&content_query("needle"), 0).is_empty());
}

#[test]
fn plain_text_search_stays_within_the_limit() {
    let record = |path: &str, name: &str, content: &str| {
        LocalSearchIndexRecord::new(
            FileIndexRecord {
                physical_path: path.to_string(),
                file_name: name.to_string(),
                extension: ".md".to_string(),
                modified_at: 1,
                size_bytes: 1,
                content_action: ContentAction::QueueParse,
            },
            Some(content.to_string()),
        )
    };
    let index = LocalSearchIndex::from_parts(
        vec![
            record("/tmp/a.md", "instant.md", "nothing here"),
            record("/tmp/b.md", "b.md", "instant here"),
            record("/tmp/c.md", "c.md", "instant again"),
        ],
        500,
    );
    let query = SearchQuery {
        name: None,
        content: None,
        extension: None,
        text: Some("instant".to_string()),
    };
    let hits = index.search(&query, 1);
    assert_eq!(hits.len(), 1);
    assert_eq!(hits[0].physical_path, "/tmp/a.md");
    assert_eq!(hits[0].hit_source, "filename");

    let hits = index.search(&query, 2);
    assert_eq!(hits.len(), 2);
    assert_eq!(hits[1].file_name, "b.md");
    assert_eq!(hits[1].hit_source, "content");

    assert_eq!(index.search(&query, 10).len(), 3);
    assert!(index.search(&query, 0).is_empty());
}

#[test]
fn empty_content_directive_counts_as_no_directive() {
    let index = LocalSearchIndex::from_parts(
        vec![LocalSearchIndexRecord::new(
            FileIndexRecord {
                physical_path: "/tmp/notes/architecture.md".to_string(),
                file_name: "architecture.md".to_string(),
                extension: ".md".to_string(),
                modified_at: 1,
                size_bytes: 10,
                content_action: ContentAction::QueueParse,
            },
            Some("Everything style instant search".to_string()),
        )],
        500,
    );
    let hits = index.search(
        &SearchQuery {
            name: None,
            content: Some(String::new()),
            extension: None,
            text: Some("instant".to_string()),
        },
        10,
    );
    assert_eq!(hits.len(), 1);
    assert_eq!(hits[0].file_name, "architecture.md");
    assert_eq!(hits[0].hit_source, "content");
    assert_eq!(
        hits[0].snippet.as_deref(),
        Some("Everything style instant search")
    );
}

#[test]
fn store_write_failures_count_as_parse_errors() {
    let summary = IndexBuildSummary {
        indexed_files: 4,
        content_files: 3,
        parse_errors: 1,
        content_queue_depth: 0,
    };
    let counted = summary.with_store_results(&vec![true, false, true, false]);
    assert_eq!(counted.parse_errors, 3);
    assert_eq!(counted.indexed_files, 4);
    assert_eq!(counted.content_files, 3);
    assert_eq!(summary.with_store_results(&Vec::new()), summary);
    let full = IndexBuildSummary {
        parse_errors: usize::MAX,
        ..summary
    };
    assert_eq!(full.with_store_results(&vec![false]).parse_errors, usize::MAX);
}

#[test]
fn empty_state_needs_a_rebuild() {
    let policy = test_policy_with_roots(vec!["/root".to_string()], vec!["/root".to_string()]);
    let mut state = RuntimeIndexState::default();
    assert!(state.needs_rebuild());
    state.apply_fs_event(&policy, created("/root/a.md", 1, 1), true, None, Some(&b"a"[..]));
    assert!(!state.needs_rebuild());
}

#[test]
fn from_parts_recomputes_normalized_content() {
    let mut record = LocalSearchIndexRecord::new(
        FileIndexRecord {
            physical_path: "/r/x.md".to_string(),
            file_name: "x.md".to_string(),
            extension: ".md".to_string(),
            modified_at: 1,
            size_bytes: 1,
            content_action: ContentAction::QueueParse,
        },
        Some("old words".to_string()),
    );
    record.content = Some("New Words".to_string());
    let index = LocalSearchIndex::from_parts(vec![record], 500);
    assert_eq!(index.search(&content_query("new words"), 10).len(), 1);
    assert!(index.search(&content_query("old"), 10).is_empty());
}
