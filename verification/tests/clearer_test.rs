use shellclear::clearer::Clearer;
use shellclear::data::{Command, Detection};
use shellclear::engine::PatternsEngine;
use shellclear::shell::Shell;

fn mock_commands() -> Vec<Command> {
    vec![
        Command {
            shell_type: Shell::Zshrc,
            detections: vec![],
            command: "mock".to_string(),
            data: "mock".to_string(),
            secrets: vec![],
        },
        Command {
            shell_type: Shell::Zshrc,
            detections: vec![Detection {
                test: String::new(),
                name: "mock".to_string(),
                secret_group: 0,
                id: "mock-id".to_string(),
            }],
            command: "should be removed".to_string(),
            data: "should be removed".to_string(),
            secrets: vec!["mock".to_string()],
        },
    ]
}

#[test]
fn remove_sensitive_commands() {
    let content = Clearer::render_history(&mock_commands(), &Shell::Zshrc, true);
    assert_eq!(content, "mock\n");
}

#[test]
fn persist_sensitive_commands() {
    let content = Clearer::render_history(&mock_commands(), &Shell::Zshrc, false);
    assert_eq!(content, "mock\nshould be removed\n");
}

#[test]
fn render_skips_other_shells() {
    let content = Clearer::render_history(&mock_commands(), &Shell::Bash, false);
    assert_eq!(content, "");
}

fn secret_pattern() -> Detection {
    Detection {
        test: "SECRET=(\\w+)".to_string(),
        name: "secret".to_string(),
        secret_group: 1,
        id: String::new(),
    }
}

#[test]
fn remove_policy_drops_detected_lines() {
    let en = PatternsEngine::with_patterns(vec![secret_pattern()], None, None);
    let entries = en
        .find_history_commands_from_content("ls\nexport SECRET=xyz\npwd\n", Shell::Bash)
        .unwrap();

    let content = Clearer::render_history(&entries, &Shell::Bash, true);

    assert_eq!(content, "ls\npwd\n");
}

#[test]
fn mask_in_place_policy_keeps_all_lines() {
    let en = PatternsEngine::with_patterns(vec![secret_pattern()], None, None);
    let entries = en
        .find_history_commands_from_content("ls\nexport SECRET=xyz\npwd\n", Shell::Bash)
        .unwrap();

    let content = Clearer::render_history(&entries, &Shell::Bash, false);

    // three characters, at or below the minimum length: masked whole
    assert_eq!(content, "ls\nexport SECRET=***\npwd\n");
    assert!(!content.contains("xyz"));
}

#[test]
fn remove_policy_drops_detected_fish_records() {
    let en = PatternsEngine::with_patterns(vec![secret_pattern()], None, None);
    let entries = en
        .find_history_commands_from_content(
            "- cmd: ls\n  when: 1\n- cmd: export SECRET=xyz\n  when: 2\n",
            Shell::Fish,
        )
        .unwrap();

    let content = Clearer::render_history(&entries, &Shell::Fish, true);

    assert_eq!(content, "- cmd: ls\n  when: 1\n");
}

#[test]
fn round_trip_without_matches_lines() {
    let original = "ls -la\necho 'hello'\npwd\n";
    let en = PatternsEngine::with_patterns(vec![secret_pattern()], None, None);
    let entries = en
        .find_history_commands_from_content(original, Shell::Bash)
        .unwrap();

    let content = Clearer::render_history(&entries, &Shell::Bash, false);

    assert_eq!(content, original);
}

#[test]
fn round_trip_without_matches_fish() {
    let original = "- cmd: ls\n  when: 1656438759\n- cmd: pwd\n  when: 1656438760\n";
    let en = PatternsEngine::with_patterns(vec![secret_pattern()], None, None);
    let entries = en
        .find_history_commands_from_content(original, Shell::Fish)
        .unwrap();

    let content = Clearer::render_history(&entries, &Shell::Fish, false);

    assert_eq!(content, original);
}
