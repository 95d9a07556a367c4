use shellclear::data::Detection;
use shellclear::engine::PatternsEngine;
use shellclear::shell::Shell;

const TEMP_HISTORY_LINES_CONTENT: &str = "history
ls
echo 'hello you'
rm -f ./file.txt
export FIND_ME=token
";

const TEMP_HISTORY_FISH: &str = "---
- cmd: history
  when: \"1656438759\"
- cmd: ls
  when: \"1656438760\"
- cmd: echo 'hello you'
  when: \"1656438760\"
- cmd: rm -f ./file.txt
  when: \"1656438760\"
- cmd: export FIND_ME=token
  when: \"1656438760\"
";

fn find_me_pattern() -> Detection {
    Detection {
        test: "FIND_ME=".to_string(),
        name: "Find me".to_string(),
        secret_group: 0,
        id: String::new(),
    }
}

#[test]
fn can_find_history_commands_line() {
    let en = PatternsEngine::with_patterns(vec![find_me_pattern()], None, None);

    let result = en
        .find_history_commands_from_content(TEMP_HISTORY_LINES_CONTENT, Shell::Bash)
        .unwrap();

    assert_eq!(result.len(), 5);
    for entry in &result[0..4] {
        assert!(entry.detections.is_empty());
        assert!(entry.secrets.is_empty());
    }
    let hit = &result[4];
    assert_eq!(hit.detections.len(), 1);
    assert_eq!(hit.detections[0].name, "Find me");
    // group zero captured "FIND_ME=", which the masker then redacted
    assert_eq!(hit.secrets, vec!["FIND_ME=".to_string()]);
    assert_eq!(hit.command, "export FI******token");
    assert_eq!(hit.data, "export FI******token");
}

#[test]
fn can_find_history_commands_fish() {
    let en = PatternsEngine::with_patterns(vec![find_me_pattern()], None, None);

    let result = en
        .find_history_commands_from_content(TEMP_HISTORY_FISH, Shell::Fish)
        .unwrap();

    assert_eq!(result.len(), 5);
    assert_eq!(result[0].command, "history");
    assert_eq!(result[0].data, "- cmd: history\n  when: 1656438759");
    assert!(result[0].detections.is_empty());
    let hit = &result[4];
    assert_eq!(hit.detections.len(), 1);
    assert_eq!(hit.command, "export FI******token");
    assert_eq!(hit.data, "- cmd: export FI******token\n  when: 1656438760");
}

#[test]
fn can_find_custom_patterns() {
    let custom = Detection {
        test: "(FIND_ME)".to_string(),
        name: "Pattern Name".to_string(),
        secret_group: 1,
        id: "elad_ignore".to_string(),
    };
    let en = PatternsEngine::with_patterns(vec![find_me_pattern()], Some(vec![custom]), None);

    let result = en
        .find_history_commands_from_content(TEMP_HISTORY_LINES_CONTENT, Shell::Bash)
        .unwrap();

    let hit = &result[4];
    assert_eq!(hit.detections.len(), 2);
    assert_eq!(hit.detections[0].name, "Find me");
    assert_eq!(hit.detections[1].name, "Pattern Name");
    assert_eq!(
        hit.secrets,
        vec!["FIND_ME=".to_string(), "FIND_ME".to_string()]
    );
    // the first rule's longer secret wins the overlapping position
    assert_eq!(hit.command, "export FI******token");
}

#[test]
fn can_ignore_patterns() {
    let mut ignored_pattern = find_me_pattern();
    ignored_pattern.id = "elad_ignore".to_string();
    let en = PatternsEngine::with_patterns(
        vec![ignored_pattern],
        None,
        Some(vec!["elad_ignore".to_string()]),
    );

    let result = en
        .find_history_commands_from_content(TEMP_HISTORY_LINES_CONTENT, Shell::Bash)
        .unwrap();

    assert_eq!(result.len(), 5);
    for entry in &result {
        assert!(entry.detections.is_empty());
        assert!(entry.secrets.is_empty());
    }
}

#[test]
fn merging_does_not_deduplicate_ids() {
    // an external rule reusing a built-in id leaves both active
    let a = find_me_pattern();
    let mut b = find_me_pattern();
    b.name = "Find me too".to_string();
    let en = PatternsEngine::with_patterns(vec![a], Some(vec![b]), None);

    let result = en
        .find_history_commands_from_content("export FIND_ME=x\n", Shell::Bash)
        .unwrap();

    assert_eq!(result[0].detections.len(), 2);
}

#[test]
fn fish_history_that_does_not_decode_fails() {
    let en = PatternsEngine::with_patterns(vec![find_me_pattern()], None, None);

    let result = en.find_history_commands_from_content("not a fish history\n", Shell::Fish);

    assert!(result.is_err());
}

#[test]
fn zsh_extended_lines_match_on_the_command_part() {
    let en = PatternsEngine::with_patterns(
        vec![Detection {
            test: "^export FIND_ME=".to_string(),
            name: "anchored".to_string(),
            secret_group: 0,
            id: String::new(),
        }],
        None,
        None,
    );

    let result = en
        .find_history_commands_from_content(": 1656438759:0;export FIND_ME=token\n", Shell::Zshrc)
        .unwrap();

    // the display text is the part after the first semicolon, and the
    // anchored rule matches it there
    assert_eq!(result[0].detections.len(), 1);
    // fifteen characters, eighty percent masked: three stay visible
    assert_eq!(result[0].command, "exp************token");
    assert_eq!(result[0].data, ": 1656438759:0;exp************token");
}

#[test]
fn find_secrets_reports_match_without_capture() {
    // the group index is beyond the pattern's groups: the rule still
    // counts as matched but contributes no secret
    let patterns = vec![Detection {
        test: "TOKEN=".to_string(),
        name: "no capture".to_string(),
        secret_group: 3,
        id: String::new(),
    }];

    let (secrets, detections) =
        PatternsEngine::find_secrets(&"export TOKEN=abc".to_string(), &patterns);

    assert_eq!(detections.len(), 1);
    assert!(secrets.is_empty());
}

#[test]
fn get_commands_with_secrets_filters_clean_entries() {
    let en = PatternsEngine::with_patterns(vec![find_me_pattern()], None, None);
    let result = en
        .find_history_commands_from_content(TEMP_HISTORY_LINES_CONTENT, Shell::Bash)
        .unwrap();

    let sensitive = shellclear::engine::get_commands_with_secrets(&result);

    assert_eq!(sensitive.len(), 1);
    assert_eq!(sensitive[0].command, "export FI******token");
}

#[test]
fn empty_history_yields_no_entries() {
    let en = PatternsEngine::with_patterns(vec![find_me_pattern()], None, None);

    assert!(en
        .find_history_commands_from_content("", Shell::Bash)
        .unwrap()
        .is_empty());
    assert!(en
        .find_history_commands_from_content("", Shell::Fish)
        .unwrap()
        .is_empty());
}

#[test]
fn empty_capture_counts_as_match_without_secret() {
    let en = PatternsEngine::with_patterns(
        vec![Detection {
            test: "TOKEN=()".to_string(),
            name: "empty capture".to_string(),
            secret_group: 1,
            id: String::new(),
        }],
        None,
        None,
    );

    let entries = en
        .find_history_commands_from_content("export TOKEN=x\n", Shell::Bash)
        .unwrap();

    // an empty capture contributes no secret; with nothing to look for the
    // entry counts as already masked and its detections are cleared, and
    // the text is never touched
    assert_eq!(entries[0].command, "export TOKEN=x");
    assert!(entries[0].secrets.is_empty());
    assert!(entries[0].detections.is_empty());
}
