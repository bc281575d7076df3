use maisou::global_shortcut::{handle_search_shortcut, ShortcutAction, ShortcutPolicy};

const SHORTCUT_POLICY: &str = r#"{
  "physical_id": "local.shortcut.search",
  "professional_description": "Global shortcut that shows the search window",
  "accelerator": "CommandOrControl+Space",
  "window_label": "main"
}"#;

#[test]
fn configured_search_shortcut_shows_and_focuses_search_window() {
    let policy = ShortcutPolicy::from_json(SHORTCUT_POLICY).expect("shortcut policy should parse");

    let action = handle_search_shortcut(&policy, "CommandOrControl+Space");

    assert_eq!(
        action,
        Some(ShortcutAction::ShowAndFocus {
            window_label: "main".to_string()
        })
    );
}

#[test]
fn other_accelerators_do_nothing() {
    let policy = ShortcutPolicy::from_json(SHORTCUT_POLICY).expect("shortcut policy should parse");
    assert_eq!(handle_search_shortcut(&policy, "CommandOrControl+K"), None);
    assert_eq!(handle_search_shortcut(&policy, "commandorcontrol+space"), None);
    assert_eq!(handle_search_shortcut(&policy, ""), None);
}

#[test]
fn shortcut_policy_reports_first_missing_field() {
    let error = ShortcutPolicy::from_json(
        r#"{ "physical_id": "p", "professional_description": "d", "window_label": "main" }"#,
    )
    .expect_err("accelerator is missing");
    assert_eq!(error.field, "accelerator");

    let error = ShortcutPolicy::from_json(r#"{ "physical_id": 7 }"#).expect_err("id not a string");
    assert_eq!(error.field, "physical_id");
}
