use zed_rules_sync::ids::{
    is_managed, prompt_id_for_filename, BuiltInPrompt, PromptId, NAMESPACE,
};
use zed_rules_sync::types::{title_from_filename, title_to_filename};

// Changing the NAMESPACE bytes detaches every previously-synced rule on every
// user's machine. This test pins them to catch accidents.
#[test]
fn namespace_bytes_are_frozen() {
    assert_eq!(
        NAMESPACE.to_be_bytes(),
        [
            0x7a, 0x65, 0x64, 0x2d, 0x72, 0x75, 0x6c, 0x65, 0x73, 0x2d, 0x73, 0x79, 0x6e, 0x63,
            0x00, 0x01
        ]
    );
}

// Golden UUID for "code-style.md". Changing it breaks compat with
// previously-synced rules.
#[test]
fn prompt_id_for_filename_has_golden_value() {
    let PromptId::User { uuid } = prompt_id_for_filename("code-style.md") else {
        panic!("expected User variant");
    };
    assert_eq!(uuid.to_uuid_string(), "55301176-2e7a-5a33-8aba-7b7b0019ec40");
}

#[test]
fn prompt_id_for_filename_is_deterministic() {
    assert_eq!(
        prompt_id_for_filename("code-style.md"),
        prompt_id_for_filename("code-style.md"),
    );
}

#[test]
fn title_from_filename_humanizes_slugs() {
    assert_eq!(title_from_filename("code-style.md"), "Code Style");
    assert_eq!(
        title_from_filename("rust_conventions.md"),
        "Rust Conventions"
    );
    assert_eq!(title_from_filename("my-rule.md"), "My Rule");
    assert_eq!(title_from_filename("single.md"), "Single");
}

#[test]
fn title_to_filename_slugifies() {
    assert_eq!(title_to_filename("Code Style"), "code-style.md");
    assert_eq!(title_to_filename("Rust Conventions"), "rust-conventions.md");
    assert_eq!(title_to_filename("My Rule"), "my-rule.md");
}

// is_managed relies on filename/title being a stable round trip for
// slug-form names.
#[test]
fn slug_filenames_round_trip_through_title() {
    for fname in ["code-style.md", "rust-conventions.md", "my-rule.md"] {
        let title = title_from_filename(fname);
        assert_eq!(
            title_to_filename(&title),
            fname,
            "round trip failed for {fname}"
        );
    }
}

#[test]
fn is_managed_true_for_tool_created_rules() {
    let id = prompt_id_for_filename("code-style.md");
    assert!(is_managed(&id, Some("Code Style")));
}

#[test]
fn is_managed_false_when_uuid_does_not_match_title() {
    let id = prompt_id_for_filename("code-style.md");
    assert!(!is_managed(&id, Some("Unrelated Rule")));
}

#[test]
fn is_managed_false_for_builtin_prompts() {
    let id = PromptId::BuiltIn(BuiltInPrompt::CommitMessage);
    assert!(!is_managed(&id, Some("Any Title")));
}

#[test]
fn is_managed_false_when_title_missing() {
    let id = prompt_id_for_filename("code-style.md");
    assert!(!is_managed(&id, None));
}
