use shellclear::data::Detection;
use shellclear::engine::PatternsEngine;
use shellclear::shell::Shell;

#[test]
fn table_can_prepare_sensitive_data() {
    assert!(true)
}

#[test]
fn unmatched_entries_stay_untouched() {
    // no rule matches: detections and secrets stay empty and the texts are
    // exactly the input lines
    let en = PatternsEngine::with_patterns(
        vec![Detection {
            test: "NEVER_THERE".to_string(),
            name: "never".to_string(),
            secret_group: 0,
            id: String::new(),
        }],
        None,
        None,
    );

    let entries = en
        .find_history_commands_from_content("one\ntwo\nthree\n", Shell::Bash)
        .unwrap();

    assert_eq!(entries.len(), 3);
    let texts: Vec<&str> = entries.iter().map(|e| e.command.as_str()).collect();
    assert_eq!(texts, vec!["one", "two", "three"]);
    for e in &entries {
        assert!(e.detections.is_empty());
        assert!(e.secrets.is_empty());
        assert_eq!(e.command, e.data);
    }
}

#[test]
fn token_example_masks_to_visible_prefix() {
    let en = PatternsEngine::with_patterns(
        vec![Detection {
            test: "TOKEN=(\\w+)".to_string(),
            name: "token".to_string(),
            secret_group: 1,
            id: String::new(),
        }],
        None,
        None,
    );

    let entries = en
        .find_history_commands_from_content("export TOKEN=abc123xyz\n", Shell::Bash)
        .unwrap();

    assert_eq!(entries[0].secrets, vec!["abc123xyz".to_string()]);
    // a nine-character secret, eighty percent masked: the masking crate
    // keeps a two-character prefix and writes seven mask characters
    assert_eq!(entries[0].command, "export TOKEN=ab*******");
    assert!(!entries[0].command.contains("abc123xyz"));
}

#[test]
fn already_masked_line_reports_nothing_on_second_pass() {
    let en = PatternsEngine::with_patterns(
        vec![Detection {
            test: "TOKEN=(\\w+)".to_string(),
            name: "token".to_string(),
            secret_group: 1,
            id: String::new(),
        }],
        None,
        None,
    );

    let first = en
        .find_history_commands_from_content("export TOKEN=abc123xyz\n", Shell::Bash)
        .unwrap();
    let masked_line = format!("{}\n", first[0].data);

    let second = en
        .find_history_commands_from_content(&masked_line, Shell::Bash)
        .unwrap();

    assert!(second[0].detections.is_empty());
    assert!(second[0].secrets.is_empty());
    assert_eq!(format!("{}\n", second[0].data), masked_line);
}

#[test]
fn ignored_id_never_appears_even_if_it_would_match() {
    let en = PatternsEngine::with_patterns(
        vec![
            Detection {
                test: "SECRET=(\\w+)".to_string(),
                name: "kept".to_string(),
                secret_group: 1,
                id: "keep-me".to_string(),
            },
            Detection {
                test: "SECRET=(\\w+)".to_string(),
                name: "dropped".to_string(),
                secret_group: 1,
                id: "drop-me".to_string(),
            },
        ],
        None,
        Some(vec!["drop-me".to_string()]),
    );

    let entries = en
        .find_history_commands_from_content("export SECRET=abcdefgh\n", Shell::Bash)
        .unwrap();

    assert_eq!(entries[0].detections.len(), 1);
    for d in &entries[0].detections {
        assert_ne!(d.id, "drop-me");
    }
}
