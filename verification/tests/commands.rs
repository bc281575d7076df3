use maisou::commands::{
    finish_search_command, needs_fallback_scan, build_open_file_command, build_reveal_file_command, check_preview_size, extension_of,
    extract_json_array, extract_json_string_value, extract_json_string_values,
    filter_hits_by_mode, indexer_policy_to_settings, kind_for_extension, preview_from_bytes,
    search_hits_to_command_hits, split_json_objects, SearchCommandQuery, SearchIndexStatus,
    SearchMode,
};
use maisou::indexer::{ContentAction, ContentIndexPolicy, FileIndexRecord, IndexerPolicy};
use maisou::search::SearchQuery;
use maisou::runtime_index::IndexBuildSummary;
use maisou::search::SearchHit;

const SEARCH_SYNTAX: &str = r#"{
  "directives": ["name:", "content:", "ext:"],
  "extensionKindGroups": [
    { "kind": "文档", "extensions": [".md", ".txt", ".pdf"] },
    { "kind": "图片", "extensions": [".png", ".JPG"] },
    { "kind": "代码", "extensions": [".rs", ".md"] }
  ]
}"#;

fn sample_hits() -> Vec<SearchHit> {
    vec![
        SearchHit {
            physical_path: "/work/roadmap.md".to_string(),
            file_name: "roadmap.md".to_string(),
            extension: ".md".to_string(),
            modified_at: 1,
            size_bytes: 4096,
            hit_source: "filename".to_string(),
            snippet: None,
        },
        SearchHit {
            physical_path: "/work/notes.md".to_string(),
            file_name: "notes.md".to_string(),
            extension: ".md".to_string(),
            modified_at: 2,
            size_bytes: 512,
            hit_source: "content".to_string(),
            snippet: Some("...AnyTXT content...".to_string()),
        },
    ]
}

fn test_policy() -> IndexerPolicy {
    IndexerPolicy {
        physical_id: "local.indexer.policy".to_string(),
        professional_description: "Local index policy".to_string(),
        scan_roots: vec!["~/Documents".to_string()],
        opt_in_watch_roots: vec!["~/Documents/Notes".to_string()],
        exclude_path_fragments: vec!["/.git/".to_string()],
        max_parse_size_bytes: 4096,
        text_extensions: vec![".md".to_string(), ".txt".to_string()],
        encrypted_extensions: vec![".gpg".to_string()],
        parse_error_code: "Parse_Error".to_string(),
        content_index: ContentIndexPolicy {
            enabled: true,
            batch_size: 32,
            snippet_radius: 120,
            default_limit: 20,
        },
    }
}

#[test]
fn search_file_names_command_preserves_filename_and_content_result_metadata() {
    let hits = search_hits_to_command_hits(sample_hits(), SEARCH_SYNTAX);

    assert_eq!(hits[0].modified_at, 1);
    assert_eq!(hits[0].size_bytes, 4096);
    assert_eq!(hits[0].kind, "文档");
    assert_eq!(hits[0].hit_source, "filename");
    assert_eq!(hits[0].snippet, None);
    assert_eq!(hits[1].modified_at, 2);
    assert_eq!(hits[1].size_bytes, 512);
    assert_eq!(hits[1].kind, "文档");
    assert_eq!(hits[1].hit_source, "content");
    assert_eq!(hits[1].snippet.as_deref(), Some("...AnyTXT content..."));
}

#[test]
fn filters_command_hits_by_requested_search_mode() {
    let hits = sample_hits();

    let filename_hits = filter_hits_by_mode(hits.clone(), &SearchMode::Filename);
    let content_hits = filter_hits_by_mode(hits.clone(), &SearchMode::Content);
    let mixed_hits = filter_hits_by_mode(hits, &SearchMode::Mixed);

    assert_eq!(filename_hits.len(), 1);
    assert_eq!(filename_hits[0].hit_source, "filename");
    assert_eq!(content_hits.len(), 1);
    assert_eq!(content_hits[0].hit_source, "content");
    assert_eq!(mixed_hits.len(), 2);
}

#[test]
fn search_index_status_includes_content_queue_depth() {
    let status = SearchIndexStatus::from(IndexBuildSummary {
        indexed_files: 12,
        content_files: 7,
        parse_errors: 1,
        content_queue_depth: 3,
    });

    assert_eq!(status.indexed_files, 12);
    assert_eq!(status.content_files, 7);
    assert_eq!(status.parse_errors, 1);
    assert_eq!(status.content_queue_depth, 3);
}

#[test]
fn indexer_policy_settings_exposes_configured_read_only_fields() {
    let policy = test_policy();

    let settings = indexer_policy_to_settings(&policy);

    assert_eq!(settings.scan_roots, vec!["~/Documents"]);
    assert_eq!(settings.watch_roots, vec!["~/Documents/Notes"]);
    assert_eq!(settings.exclude_path_fragments, vec!["/.git/"]);
    assert_eq!(settings.max_parse_size_bytes, 4096);
    assert_eq!(settings.text_extensions, vec![".md", ".txt"]);
    assert_eq!(settings.content_index.enabled, true);
    assert_eq!(settings.content_index.batch_size, 32);
    assert_eq!(settings.content_index.snippet_radius, 120);
    assert_eq!(settings.content_index.default_limit, 20);
}

#[test]
fn builds_macos_open_file_command_without_shell_interpolation() {
    let (program, args) = build_open_file_command("/tmp/麦搜 test.md");

    assert_eq!(program, "open");
    assert_eq!(args, vec!["/tmp/麦搜 test.md"]);
}

#[test]
fn builds_macos_reveal_file_command_with_finder_selection_flag() {
    let (program, args) = build_reveal_file_command("/tmp/麦搜 test.md");

    assert_eq!(program, "open");
    assert_eq!(args, vec!["-R", "/tmp/麦搜 test.md"]);
}

// ---------------------------------------------------------------------------
// Further cases
// ---------------------------------------------------------------------------

#[test]
fn preview_returns_text_of_small_utf8_file() {
    let policy = IndexerPolicy {
        max_parse_size_bytes: 52_428_800,
        ..test_policy()
    };
    let content = "before\nPhase 3 target\nafter";
    assert!(check_preview_size(&policy, content.len() as u64).is_ok());

    let preview = preview_from_bytes(&policy, "/tmp/maisou-preview-small.txt", content.as_bytes().to_vec())
        .expect("preview content should read");

    assert_eq!(preview.content, "before\nPhase 3 target\nafter");
    assert_eq!(preview.source, "file");
}

#[test]
fn preview_rejects_files_above_configured_limit() {
    let policy = IndexerPolicy {
        max_parse_size_bytes: 52_428_800,
        ..test_policy()
    };
    assert_eq!(
        check_preview_size(&policy, 52_428_801),
        Err("preview file exceeds configured parse size".to_string())
    );
    assert!(check_preview_size(&policy, 52_428_800).is_ok());
}

#[test]
fn preview_marks_malformed_text_with_configured_parse_error() {
    let policy = test_policy();
    assert_eq!(
        preview_from_bytes(&policy, "/tmp/maisou-preview-malformed.txt", vec![0xff, 0xfe, 0xfd]),
        Err("Parse_Error".to_string())
    );
    assert_eq!(
        preview_from_bytes(&policy, "/tmp/image.png", b"not text".to_vec()),
        Err("Parse_Error".to_string())
    );
}

#[test]
fn extension_of_lowercases_the_text_after_the_last_dot_of_the_name() {
    assert_eq!(extension_of("/tmp/Archive.Tar.GZ"), ".gz");
    assert_eq!(extension_of("/tmp/some.dir/README"), "");
    assert_eq!(extension_of("notes.MD"), ".md");
    assert_eq!(extension_of("/tmp/trailing."), ".");
}

#[test]
fn kind_for_extension_takes_first_group_and_falls_back_to_default() {
    assert_eq!(kind_for_extension(SEARCH_SYNTAX, ".md"), "文档");
    assert_eq!(kind_for_extension(SEARCH_SYNTAX, " .JPG "), "图片");
    assert_eq!(kind_for_extension(SEARCH_SYNTAX, "rs"), "代码");
    assert_eq!(kind_for_extension(SEARCH_SYNTAX, ".zip"), "文件");
    assert_eq!(kind_for_extension("{}", ".md"), "文件");
}

#[test]
fn json_helpers_read_nested_arrays_objects_and_strings() {
    let groups = extract_json_array(SEARCH_SYNTAX, "extensionKindGroups").expect("array");
    let objects = split_json_objects(&groups);
    assert_eq!(objects.len(), 3);
    assert_eq!(
        extract_json_string_value(&objects[1], "kind"),
        Some("图片".to_string())
    );
    let extensions = extract_json_array(&objects[1], "extensions").expect("extensions");
    assert_eq!(extract_json_string_values(&extensions), vec![".png", ".JPG"]);

    assert_eq!(
        extract_json_array(r#"{"a": [1, [2, [3]], 4], "b": []}"#, "a"),
        Some("1, [2, [3]], 4".to_string())
    );
    assert_eq!(extract_json_array(r#"{"a": [1, [2"#, "a"), None);
    assert_eq!(extract_json_array(r#"{"b": [1]}"#, "a"), None);
    assert_eq!(
        split_json_objects("} {\"x\": {\"y\": 1}} junk {}"),
        vec!["{\"x\": {\"y\": 1}}", "{}"]
    );
    assert_eq!(extract_json_string_values("\"a\" , \"b\", \"c"), vec!["a", "b"]);
    assert_eq!(extract_json_string_value(r#"{"kind": 3}"#, "kind"), None);
}

#[test]
fn command_query_carries_every_field() {
    let query = SearchCommandQuery {
        name: Some("n".to_string()),
        content: None,
        extension: Some("md".to_string()),
        text: Some("t".to_string()),
    }
    .into_search_query();
    assert_eq!(query.name.as_deref(), Some("n"));
    assert_eq!(query.content, None);
    assert_eq!(query.extension.as_deref(), Some("md"));
    assert_eq!(query.text.as_deref(), Some("t"));
}

#[test]
fn command_hits_strip_extension_dots_and_keep_paths() {
    let hits = search_hits_to_command_hits(
        vec![SearchHit {
            physical_path: "/w/a..png".to_string(),
            file_name: "a..png".to_string(),
            extension: "..png".to_string(),
            modified_at: 5,
            size_bytes: 6,
            hit_source: "filename".to_string(),
            snippet: None,
        }],
        SEARCH_SYNTAX,
    );
    assert_eq!(hits.len(), 1);
    assert_eq!(hits[0].id, "/w/a..png");
    assert_eq!(hits[0].path, "/w/a..png");
    assert_eq!(hits[0].name, "a..png");
    assert_eq!(hits[0].extension, "png");
    assert_eq!(hits[0].kind, "图片");
}

#[test]
fn search_command_falls_back_to_scanned_records_only_without_runtime_hits() {
    let scanned = vec![FileIndexRecord {
        physical_path: "/w/plan.txt".to_string(),
        file_name: "plan.txt".to_string(),
        extension: ".txt".to_string(),
        modified_at: 3,
        size_bytes: 7,
        content_action: ContentAction::QueueParse,
    }];
    let query = SearchQuery {
        name: Some("plan".to_string()),
        content: None,
        extension: None,
        text: None,
    };
    assert!(needs_fallback_scan(&Vec::new()));
    assert!(!needs_fallback_scan(&sample_hits()));

    let hits = finish_search_command(
        Vec::new(),
        Some(scanned.clone()),
        &query,
        10,
        &SearchMode::Mixed,
        SEARCH_SYNTAX,
    );
    assert_eq!(hits.len(), 1);
    assert_eq!(hits[0].path, "/w/plan.txt");
    assert_eq!(hits[0].kind, "文档");
    assert_eq!(hits[0].hit_source, "filename");

    let hits = finish_search_command(
        sample_hits(),
        Some(scanned),
        &query,
        10,
        &SearchMode::Content,
        SEARCH_SYNTAX,
    );
    assert_eq!(hits.len(), 1);
    assert_eq!(hits[0].path, "/work/notes.md");

    assert!(finish_search_command(Vec::new(), None, &query, 10, &SearchMode::Mixed, SEARCH_SYNTAX)
        .is_empty());
}
