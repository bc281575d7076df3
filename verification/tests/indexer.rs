use maisou::indexer::{
    enqueue_fs_event, enqueue_fs_event_with_content_gate, enqueue_fs_events, expand_home,
    first_layer_scan, parse_content_for_extension, parse_text_content, run_watch_once,
    ContentAction, ContentIndexPolicy, FileEventWatcher, FileSystemEntry, FsEvent,
    IndexerPolicy, MacOsFseventsWatcher, ParseQueue, ParseStatus,
};

fn test_policy() -> IndexerPolicy {
    IndexerPolicy {
        physical_id: "local.indexer.policy".to_string(),
        professional_description: "Indexer policy for tests".to_string(),
        scan_roots: vec!["/opt/in".to_string()],
        opt_in_watch_roots: vec!["/opt/in/notes".to_string()],
        exclude_path_fragments: vec!["/.git/".to_string(), "/node_modules/".to_string()],
        max_parse_size_bytes: 52_428_800,
        text_extensions: vec![".txt".to_string(), ".md".to_string(), ".json".to_string()],
        encrypted_extensions: vec![".gpg".to_string(), ".enc".to_string()],
        parse_error_code: "Parse_Error".to_string(),
        content_index: ContentIndexPolicy::disabled(),
    }
}

struct FakeWatcher {
    events: Vec<FsEvent>,
}

impl FileEventWatcher for FakeWatcher {
    fn drain_events(&mut self) -> Vec<FsEvent> {
        std::mem::take(&mut self.events)
    }
}

#[test]
fn loads_indexer_policy_from_json_configuration() {
    let policy = IndexerPolicy::from_json(
        r#"{
          "physical_id": "local.indexer.policy",
          "professional_description": "Indexer traversal policy",
          "scan_roots": ["/Users/example/Documents"],
          "opt_in_watch_roots": ["/Users/example/Documents/Notes"],
          "exclude_path_fragments": ["/node_modules/", "/.git/"],
          "max_parse_size_bytes": 52428800,
          "text_extensions": [".txt", ".md", ".json"],
          "encrypted_extensions": [".gpg", ".enc"],
          "parse_error_code": "Parse_Error"
        }"#,
    )
    .expect("policy should parse");

    assert_eq!(policy.scan_roots, vec!["/Users/example/Documents"]);
    assert_eq!(policy.max_parse_size_bytes, 52_428_800);
    assert_eq!(policy.parse_error_code, "Parse_Error");
    assert!(policy
        .exclude_path_fragments
        .contains(&"/.git/".to_string()));
}

#[test]
fn first_layer_scan_keeps_file_name_metadata_without_content_parse() {
    let policy = test_policy();
    let entries = vec![
        FileSystemEntry::file("/opt/in/notes/todo.md", 1024, 100),
        FileSystemEntry::directory("/opt/in/notes/archive"),
    ];

    let records = first_layer_scan(&policy, entries, None);

    assert_eq!(records.len(), 1);
    assert_eq!(records[0].file_name, "todo.md");
    assert_eq!(records[0].extension, ".md");
    assert_eq!(records[0].content_action, ContentAction::QueueParse);
}

#[test]
fn first_layer_scan_excludes_blacklisted_paths_and_large_or_encrypted_content() {
    let policy = test_policy();
    let entries = vec![
        FileSystemEntry::file("/opt/in/project/.git/config", 12, 100),
        FileSystemEntry::file("/opt/in/huge.pdf", 99_000_000, 100),
        FileSystemEntry::file("/opt/in/secret.gpg", 128, 100),
    ];

    let records = first_layer_scan(&policy, entries, None);

    assert_eq!(records.len(), 2);
    assert!(records
        .iter()
        .all(|record| record.physical_path != "/opt/in/project/.git/config"));
    assert_eq!(records[0].content_action, ContentAction::FilenameOnly);
    assert_eq!(records[1].content_action, ContentAction::FilenameOnly);
}

#[test]
fn suspended_resource_gate_keeps_filename_update_out_of_parse_queue_within_budget() {
    let policy = test_policy();
    let mut queue = ParseQueue::new();
    let started_at = std::time::Instant::now();

    let record = enqueue_fs_event_with_content_gate(
        &policy,
        &mut queue,
        FsEvent::Modified {
            path: "/opt/in/notes/large-batch.md".to_string(),
            size_bytes: 2048,
            modified_at: 200,
        },
        false,
        None,
    )
    .expect("filename update should still be represented");

    assert_eq!(record.file_name, "large-batch.md");
    assert_eq!(record.content_action, ContentAction::QueueParse);
    assert_eq!(queue.len(), 0);
    assert!(
        started_at.elapsed() <= std::time::Duration::from_secs(1),
        "resource gate took {:?}",
        started_at.elapsed()
    );
}

#[test]
fn malformed_text_content_is_marked_with_configured_parse_error_code() {
    let policy = test_policy();

    let status = parse_text_content(&policy, &[0xff, 0xfe, 0xfd]);

    assert_eq!(
        status,
        ParseStatus::ParseError {
            code: "Parse_Error".to_string()
        }
    );
}

#[test]
fn fsevents_adapter_pushes_opt_in_changes_to_parse_queue() {
    let policy = test_policy();
    let mut queue = ParseQueue::new();

    enqueue_fs_event(
        &policy,
        &mut queue,
        FsEvent::Modified {
            path: "/opt/in/notes/todo.md".to_string(),
            size_bytes: 2048,
            modified_at: 200,
        },
        None,
    );
    enqueue_fs_event(
        &policy,
        &mut queue,
        FsEvent::Modified {
            path: "/outside/todo.md".to_string(),
            size_bytes: 2048,
            modified_at: 200,
        },
        None,
    );

    assert_eq!(queue.len(), 1);
    assert_eq!(queue.pop().unwrap().physical_path, "/opt/in/notes/todo.md");
}

#[test]
fn watcher_boundary_drains_events_into_parse_queue() {
    let policy = test_policy();
    let mut watcher = FakeWatcher {
        events: vec![FsEvent::Modified {
            path: "/opt/in/notes/todo.md".to_string(),
            size_bytes: 1024,
            modified_at: 300,
        }],
    };
    let mut queue = ParseQueue::new();

    run_watch_once(&policy, &mut watcher, &mut queue, None);

    assert_eq!(queue.len(), 1);
    assert_eq!(queue.pop().unwrap().modified_at, 300);
}

#[test]
fn macos_fsevents_watcher_uses_opt_in_roots_from_policy() {
    let policy = test_policy();

    let watcher = MacOsFseventsWatcher::new(&policy);

    assert_eq!(watcher.roots(), &["/opt/in/notes".to_string()]);
}

// ---------------------------------------------------------------------------
// Further cases
// ---------------------------------------------------------------------------

#[test]
fn home_roots_expand_with_the_given_home_directory() {
    assert_eq!(
        expand_home("~/definitely-not-a-maisou-test-directory", Some("/Users/me")),
        "/Users/me/definitely-not-a-maisou-test-directory"
    );
    assert_eq!(expand_home("~/Documents", None), "~/Documents");
    assert_eq!(expand_home("/opt/in", Some("/Users/me")), "/opt/in");
}

#[test]
fn first_layer_scan_matches_entries_against_home_roots() {
    let policy = IndexerPolicy {
        scan_roots: vec!["~/Documents".to_string()],
        opt_in_watch_roots: Vec::new(),
        ..test_policy()
    };
    let entries = vec![FileSystemEntry::file(
        "/Users/me/Documents/maisou-home-root-test.md",
        16,
        100,
    )];

    let records = first_layer_scan(&policy, entries.clone(), Some("/Users/me"));
    assert_eq!(records.len(), 1);
    assert_eq!(records[0].file_name, "maisou-home-root-test.md");

    let records = first_layer_scan(&policy, entries, None);
    assert!(records.is_empty());
}

#[test]
fn indexer_policy_reads_content_index_section() {
    let policy = IndexerPolicy::from_json(
        r#"{
          "physical_id": "local.indexer.policy",
          "professional_description": "Indexer traversal policy",
          "scan_roots": ["/a"],
          "opt_in_watch_roots": [],
          "exclude_path_fragments": [],
          "max_parse_size_bytes": 10,
          "text_extensions": [".TXT"],
          "encrypted_extensions": [],
          "parse_error_code": "Parse_Error",
          "content_index": {
            "enabled": true,
            "batch_size": 64,
            "snippet_radius": 500,
            "default_limit": 50
          }
        }"#,
    )
    .expect("policy should parse");
    assert!(policy.content_index.enabled);
    assert_eq!(policy.content_index.batch_size, 64);
    assert_eq!(policy.content_index.snippet_radius, 500);
    assert_eq!(policy.content_index.default_limit, 50);
    assert_eq!(policy.text_extensions, vec![".txt"]);
}

#[test]
fn indexer_policy_reports_missing_field() {
    let error = IndexerPolicy::from_json(r#"{ "physical_id": "x", "professional_description": "y" }"#)
        .expect_err("scan roots are missing");
    assert_eq!(error.field, "scan_roots");
}

#[test]
fn content_gate_queues_parse_when_content_indexing_is_allowed() {
    let policy = test_policy();
    let mut queue = ParseQueue::new();
    let record = enqueue_fs_event_with_content_gate(
        &policy,
        &mut queue,
        FsEvent::Created {
            path: "/opt/in/notes/a.md".to_string(),
            size_bytes: 10,
            modified_at: 1,
        },
        true,
        None,
    )
    .expect("watched file");
    assert_eq!(record.extension, ".md");
    assert_eq!(queue.len(), 1);

    let removed = enqueue_fs_event_with_content_gate(
        &policy,
        &mut queue,
        FsEvent::Removed {
            path: "/opt/in/notes/a.md".to_string(),
        },
        true,
        None,
    );
    assert!(removed.is_none());
    assert_eq!(queue.len(), 1);
}

#[test]
fn enqueue_fs_events_keeps_event_order_and_skips_excluded_paths() {
    let policy = test_policy();
    let mut queue = ParseQueue::new();
    enqueue_fs_events(
        &policy,
        &mut queue,
        vec![
            FsEvent::Created {
                path: "/opt/in/notes/first.md".to_string(),
                size_bytes: 1,
                modified_at: 1,
            },
            FsEvent::Modified {
                path: "/opt/in/notes/.git/HEAD".to_string(),
                size_bytes: 1,
                modified_at: 1,
            },
            FsEvent::Modified {
                path: "/opt/in/notes/secret.gpg".to_string(),
                size_bytes: 1,
                modified_at: 1,
            },
            FsEvent::Modified {
                path: "/opt/in/notes/second.TXT".to_string(),
                size_bytes: 1,
                modified_at: 2,
            },
        ],
        None,
    );
    assert_eq!(queue.len(), 2);
    assert_eq!(queue.pop().unwrap().file_name, "first.md");
    let second = queue.pop().unwrap();
    assert_eq!(second.file_name, "second.TXT");
    assert_eq!(second.extension, ".txt");
    assert!(queue.pop().is_none());
}

#[test]
fn content_parse_needs_text_extension_and_utf8() {
    let policy = test_policy();
    assert_eq!(
        parse_content_for_extension(&policy, ".md", b"hello"),
        ParseStatus::Parsed
    );
    assert_eq!(
        parse_content_for_extension(&policy, ".pdf", b"hello"),
        ParseStatus::ParseError {
            code: "Parse_Error".to_string()
        }
    );
    assert_eq!(parse_text_content(&policy, "ok ✓".as_bytes()), ParseStatus::Parsed);
}

#[test]
fn fsevents_watcher_hands_recorded_events_over_once() {
    let policy = test_policy();
    let mut watcher = MacOsFseventsWatcher::new(&policy);
    watcher.record_event(FsEvent::Removed {
        path: "/opt/in/notes/x.md".to_string(),
    });
    let events = watcher.drain_events();
    assert_eq!(events.len(), 1);
    assert!(watcher.drain_events().is_empty());
}
