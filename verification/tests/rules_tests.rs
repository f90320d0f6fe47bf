use zed_rules_sync::ids::{
    prompt_id_for_filename, BuiltInPrompt, PromptId, PromptMetadata, Timestamp, UserPromptId,
};
use zed_rules_sync::rules::{
    find_rule, list_row, managed_entries, remove_request, FileAction, RemoveError,
    RemoveRequest, RuleEntry, SyncTally,
};

fn entry(id: PromptId, title: Option<&str>, default: bool) -> RuleEntry {
    RuleEntry {
        id,
        metadata: PromptMetadata {
            id,
            title: title.map(|t| t.to_string()),
            default,
            saved_at: Timestamp { secs: 0, nanos: 0 },
        },
    }
}

fn sample() -> Vec<RuleEntry> {
    vec![
        entry(prompt_id_for_filename("code-style.md"), Some("Code Style"), false),
        entry(PromptId::User { uuid: UserPromptId(7) }, Some("Code Style"), true),
        entry(PromptId::BuiltIn(BuiltInPrompt::CommitMessage), None, false),
        entry(prompt_id_for_filename("old-rule.md"), Some("Old Rule"), true),
    ]
}

#[test]
fn metadata_for_rule_keeps_fields() {
    let id = prompt_id_for_filename("code-style.md");
    let m = PromptMetadata::for_rule(id, "Code Style", true, Timestamp { secs: 5, nanos: 6 });
    assert_eq!(m.id, id);
    assert_eq!(m.title.as_deref(), Some("Code Style"));
    assert!(m.default);
    assert_eq!(m.saved_at, Timestamp { secs: 5, nanos: 6 });
}

#[test]
fn listing_rows() {
    let entries = sample();
    let row = list_row(&entries[0]);
    assert_eq!(row.title, "Code Style");
    assert!(!row.default);
    assert!(row.managed);
    assert_eq!(row.id, "55301176-2e7a-5a33-8aba-7b7b0019ec40");

    let row = list_row(&entries[1]);
    assert!(row.default);
    assert!(!row.managed);
    assert_eq!(row.id, "00000000-0000-0000-0000-000000000007");

    let row = list_row(&entries[2]);
    assert_eq!(row.title, "Untitled");
    assert!(!row.managed);
    assert_eq!(row.id, "CommitMessage");
}

#[test]
fn remove_request_choices() {
    assert!(matches!(
        remove_request(Some("x".to_string()), true),
        Ok(RemoveRequest::AllManaged)
    ));
    assert!(matches!(remove_request(None, true), Ok(RemoveRequest::AllManaged)));
    match remove_request(Some("Code Style".to_string()), false) {
        Ok(RemoveRequest::Matching(n)) => assert_eq!(n, "Code Style"),
        _ => panic!("expected a matching request"),
    }
    assert_eq!(
        remove_request(None, false).err(),
        Some(RemoveError::NothingSpecified)
    );
}

#[test]
fn managed_removal_selects_only_tool_rules() {
    assert_eq!(managed_entries(&sample()), vec![0, 3]);
    assert_eq!(managed_entries(&Vec::new()), Vec::<usize>::new());
}

#[test]
fn find_rule_by_title_or_uuid() {
    let entries = sample();
    assert_eq!(find_rule(&entries, &"code style".to_string()), Some(0));
    assert_eq!(find_rule(&entries, &"OLD RULE".to_string()), Some(3));
    assert_eq!(
        find_rule(&entries, &"00000000-0000-0000-0000-000000000007".to_string()),
        Some(1)
    );
    assert_eq!(find_rule(&entries, &"CommitMessage".to_string()), None);
    assert_eq!(find_rule(&entries, &"missing".to_string()), None);
}

#[test]
fn sync_counts_and_prunes() {
    let mut tally = SyncTally::new();
    assert_eq!(tally.record_file("code-style.md", true), FileAction::Update);
    assert_eq!(tally.record_file("new-rule.md", false), FileAction::Create);
    assert_eq!(tally.created(), 1);
    assert_eq!(tally.updated(), 1);
    assert_eq!(tally.pruned(), 0);

    let entries = sample();
    // synced in this run: kept
    assert!(!tally.should_prune(&entries[0]));
    // not created by this tool: never pruned
    assert!(!tally.should_prune(&entries[1]));
    assert!(!tally.should_prune(&entries[2]));
    // created by this tool, source gone: pruned
    assert!(tally.should_prune(&entries[3]));
    tally.record_prune();
    assert_eq!(tally.pruned(), 1);
    assert!(tally.was_synced(&"new-rule.md".to_string()));
    assert!(!tally.was_synced(&"old-rule.md".to_string()));
}
