//! The global search shortcut: its policy and what a key press does.
use vstd::prelude::*;
use crate::json_fields::{read_string_field, string_field};
use crate::text::{chars_of, str_equal};

verus! {

#[derive(Debug, Clone, PartialEq, Eq)]
pub struct ShortcutPolicy {
    pub physical_id: String,
    pub professional_description: String,
    pub accelerator: String,
    pub window_label: String,
}

#[derive(Debug, Clone, PartialEq, Eq)]
pub enum ShortcutAction {
    ShowAndFocus { window_label: String },
}

#[derive(Debug, Clone, PartialEq, Eq)]
pub struct ShortcutPolicyParseError {
    pub field: &'static str,
}

/// The first field, in reading order, that the payload does not hold as a string.
pub open spec fn shortcut_policy_error(payload: Seq<char>) -> Option<Seq<char>> {
    if string_field(payload, "physical_id"@) is None {
        Some("physical_id"@)
    } else if string_field(payload, "professional_description"@) is None {
        Some("professional_description"@)
    } else if string_field(payload, "accelerator"@) is None {
        Some("accelerator"@)
    } else if string_field(payload, "window_label"@) is None {
        Some("window_label"@)
    } else {
        None
    }
}

fn extract_json_string(payload: &Vec<char>, field: &'static str) -> (r: Result<
    String,
    ShortcutPolicyParseError,
>)
    ensures
        r matches Ok(v) ==> string_field(payload@, field@) == Some(v@),
        r matches Err(e) ==> string_field(payload@, field@) is None && e.field == field,
{
    match read_string_field(payload, field) {
        Some(v) => Ok(v),
        None => Err(ShortcutPolicyParseError { field }),
    }
}

impl ShortcutPolicy {
    /// Reads the policy from its JSON configuration.  Fails with the first
    /// field, in declaration order, that is missing or not a string.
    pub fn from_json(payload: &str) -> (r: Result<Self, ShortcutPolicyParseError>)
        ensures
            r is Ok <==> shortcut_policy_error(payload@) is None,
            r matches Ok(p) ==> {
                &&& string_field(payload@, "physical_id"@) == Some(p.physical_id@)
                &&& string_field(payload@, "professional_description"@) == Some(
                    p.professional_description@,
                )
                &&& string_field(payload@, "accelerator"@) == Some(p.accelerator@)
                &&& string_field(payload@, "window_label"@) == Some(p.window_label@)
            },
            r matches Err(e) ==> shortcut_policy_error(payload@) == Some(e.field@),
    {
        let text = chars_of(payload);
        Ok(
            Self {
                physical_id: extract_json_string(&text, "physical_id")?,
                professional_description: extract_json_string(&text, "professional_description")?,
                accelerator: extract_json_string(&text, "accelerator")?,
                window_label: extract_json_string(&text, "window_label")?,
            },
        )
    }
}

/// A press of `accelerator` shows and focuses the configured window exactly
/// when it is the configured accelerator.
pub fn handle_search_shortcut(policy: &ShortcutPolicy, accelerator: &str) -> (r: Option<
    ShortcutAction,
>)
    ensures
        r is Some <==> accelerator@ == policy.accelerator@,
        r matches Some(ShortcutAction::ShowAndFocus { window_label }) ==> window_label
            == policy.window_label,
{
    if str_equal(accelerator, policy.accelerator.as_str()) {
        return Some(ShortcutAction::ShowAndFocus { window_label: policy.window_label.clone() });
    }
    None
}

} // verus!
