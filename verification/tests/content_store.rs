use maisou::content_store::{
    build_snippet, content_search_plan, nearest_char_boundary_after, nearest_char_boundary_before,
    normalize_extension, ContentSearchQuery, ContentStoreError,
};

fn query(needle: &str, extension: Option<&str>, limit: usize, radius: usize) -> ContentSearchQuery {
    ContentSearchQuery {
        needle: needle.to_string(),
        extension: extension.map(|e| e.to_string()),
        limit,
        snippet_radius: radius,
    }
}

#[test]
fn plan_keeps_needle_and_normalizes_extension() {
    let plan = content_search_plan(&query("text inside", Some(" .MD"), 10, 32)).expect("plan");
    assert_eq!(plan.needle, "text inside");
    assert_eq!(plan.normalized_extension.as_deref(), Some("md"));
    assert_eq!(plan.limit, 10);
    assert_eq!(plan.snippet_radius, 32);
}

#[test]
fn plan_is_empty_for_blank_needle_or_zero_limit() {
    assert!(content_search_plan(&query("   ", None, 10, 32)).is_none());
    assert!(content_search_plan(&query("x", None, 0, 32)).is_none());
}

#[test]
fn plan_clamps_limits_to_sqlite_integers() {
    let plan = content_search_plan(&query("x", None, usize::MAX, usize::MAX)).expect("plan");
    assert_eq!(plan.limit, i32::MAX as i64);
    assert_eq!(plan.snippet_radius, i32::MAX as i64);
    assert_eq!(plan.normalized_extension, None);
}

#[test]
fn normalize_extension_trims_dots_and_case() {
    assert_eq!(normalize_extension("  ..TXT "), "txt");
    assert_eq!(normalize_extension(""), "");
}

#[test]
fn snippet_of_short_content_is_the_whole_content() {
    assert_eq!(
        build_snippet("AnyTXT style search finds text inside files", "text inside", 500),
        "AnyTXT style search finds text inside files"
    );
}

#[test]
fn snippet_cuts_around_the_match_with_ellipses() {
    assert_eq!(
        build_snippet("0123456789 NEEDLE 0123456789", "needle", 3),
        "...89 NEEDLE 01..."
    );
}

#[test]
fn snippet_falls_back_to_first_matching_term_then_to_start() {
    assert_eq!(build_snippet("alpha beta gamma", "zeta gamma", 2), "...a gamma");
    assert_eq!(build_snippet("alpha beta gamma", "zeta", 3), "alpha b...");
}

#[test]
fn snippet_widens_to_character_boundaries() {
    assert_eq!(build_snippet("麦搜麦搜 key 麦搜", "key", 2), "...搜 key 麦...");
}

#[test]
fn char_boundaries_round_down_and_up() {
    let s = "a麦b";
    assert_eq!(nearest_char_boundary_before(s, 2), 1);
    assert_eq!(nearest_char_boundary_after(s, 2), 4);
    assert_eq!(nearest_char_boundary_before(s, 99), 5);
    assert_eq!(nearest_char_boundary_after(s, 99), 5);
}

#[test]
fn store_error_carries_its_message() {
    let error = ContentStoreError::new("database is locked".to_string());
    assert_eq!(error.message(), "database is locked");
}
