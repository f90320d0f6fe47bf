use zed_rules_sync::ids::{is_managed, prompt_id_for_filename, PromptId, UserPromptId};
use zed_rules_sync::text::eq_ignore_ascii_case;
use zed_rules_sync::types::{title_from_filename, title_to_filename};

#[test]
fn title_without_md_extension_keeps_whole_name() {
    assert_eq!(title_from_filename("notes"), "Notes");
    assert_eq!(title_from_filename("x.md.md"), "X.md");
    assert_eq!(title_from_filename("readme.MD"), "Readme.MD");
}

#[test]
fn title_skips_empty_pieces() {
    assert_eq!(title_from_filename("--a__b--.md"), "A B");
    assert_eq!(title_from_filename(".md"), "");
    assert_eq!(title_from_filename("-_-.md"), "");
    assert_eq!(title_from_filename("mixed-CASE_words.md"), "Mixed CASE Words");
}

#[test]
fn title_uppercases_beyond_ascii() {
    // 'ß' uppercases to "SS"; the rest of the word is kept.
    assert_eq!(title_from_filename("ßtraße.md"), "SStraße");
    assert_eq!(title_from_filename("élan-vital.md"), "Élan Vital");
}

#[test]
fn filename_collapses_and_trims_separators() {
    assert_eq!(title_to_filename("  Hello,  World!! "), "hello-world.md");
    assert_eq!(title_to_filename(""), ".md");
    assert_eq!(title_to_filename("!!!"), ".md");
    assert_eq!(title_to_filename("A--B__C"), "a-b-c.md");
    assert_eq!(title_to_filename("Rust 2024 Edition"), "rust-2024-edition.md");
}

#[test]
fn filename_keeps_non_ascii_letters() {
    assert_eq!(title_to_filename("Ünïcode Title!"), "Ünïcode-title.md");
}

#[test]
fn non_slug_filename_does_not_round_trip() {
    let title = title_from_filename("Code_Style.md");
    assert_eq!(title, "Code Style");
    assert_eq!(title_to_filename(&title), "code-style.md");
    let id = prompt_id_for_filename("Code_Style.md");
    assert!(!is_managed(&id, Some(&title)));
}

#[test]
fn managed_check_follows_title_not_filename_case() {
    let id = prompt_id_for_filename("my-rule.md");
    assert!(is_managed(&id, Some("My Rule")));
    assert!(is_managed(&id, Some("my rule")));
    assert!(is_managed(&id, Some("  MY -- RULE ")));
    let other = PromptId::User { uuid: UserPromptId(0) };
    assert!(!is_managed(&other, Some("My Rule")));
}

#[test]
fn distinct_filenames_give_distinct_ids() {
    assert_ne!(
        prompt_id_for_filename("code-style.md"),
        prompt_id_for_filename("code-style2.md")
    );
}

#[test]
fn uuid_text_is_hyphenated_lowercase() {
    let id = UserPromptId(0xa1a2a3a4b1b2c1c2d1d2d3d4d5d6d7d8);
    assert_eq!(id.to_uuid_string(), "a1a2a3a4-b1b2-c1c2-d1d2-d3d4d5d6d7d8");
    assert_eq!(
        UserPromptId(0).to_uuid_string(),
        "00000000-0000-0000-0000-000000000000"
    );
}

#[test]
fn ascii_case_insensitive_comparison() {
    assert!(eq_ignore_ascii_case("Code Style", "code STYLE"));
    assert!(!eq_ignore_ascii_case("Code Style", "Code Styles"));
    assert!(!eq_ignore_ascii_case("Élan", "élan"));
    assert!(eq_ignore_ascii_case("", ""));
}

#[test]
fn derived_ids_have_version_five() {
    for name in ["code-style.md", "a.md", "", "Ünïcode.md"] {
        let PromptId::User { uuid } = prompt_id_for_filename(name) else {
            panic!("expected User variant");
        };
        assert_eq!((uuid.0 >> 76) & 0xf, 5);
    }
}

#[test]
fn version_four_ids_are_never_managed() {
    let PromptId::User { uuid } = prompt_id_for_filename("code-style.md") else {
        panic!("expected User variant");
    };
    let v4 = (uuid.0 & !(0xfu128 << 76)) | (4u128 << 76);
    let id = PromptId::User { uuid: UserPromptId(v4) };
    assert!(!is_managed(&id, Some("Code Style")));
}
