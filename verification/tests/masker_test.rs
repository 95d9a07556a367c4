use shellclear::data::{Command, Detection};
use shellclear::masker::Masker;
use shellclear::shell::Shell;

fn one_finding(command: &str, data: &str) -> Vec<Command> {
    vec![Command {
        shell_type: Shell::Zshrc,
        detections: vec![Detection {
            test: "export (MASK_ME)".to_string(),
            name: "mask me mock".to_string(),
            secret_group: 1,
            id: String::new(),
        }],
        command: command.to_string(),
        data: data.to_string(),
        secrets: vec!["MASK_ME".to_string()],
    }]
}

#[test]
fn mask_results() {
    let mut commands = one_finding("export MASK_ME", "export MASK_ME");

    Masker::new().mask_sensitive_findings(&mut commands);

    assert_eq!(commands.len(), 1);
    assert_eq!(commands[0].command, "export MA*****");
    assert_eq!(commands[0].data, "export MA*****");
    assert_eq!(commands[0].detections.len(), 1);
    assert_eq!(commands[0].secrets, vec!["MASK_ME".to_string()]);
}

#[test]
fn remove_already_masked_detection() {
    let mut commands = one_finding("export MA*****", "export MA*****");

    Masker::new().mask_sensitive_findings(&mut commands);

    assert_eq!(commands.len(), 1);
    assert_eq!(commands[0].command, "export MA*****");
    assert_eq!(commands[0].data, "export MA*****");
    assert!(commands[0].detections.is_empty());
    assert!(commands[0].secrets.is_empty());
}

#[test]
fn mask_is_idempotent_on_texts() {
    let mut once = one_finding("export MASK_ME", "export MASK_ME");
    Masker::new().mask_sensitive_findings(&mut once);
    let mut twice = once.clone();
    Masker::new().mask_sensitive_findings(&mut twice);

    assert_eq!(twice[0].command, once[0].command);
    assert_eq!(twice[0].data, once[0].data);
    // the second pass finds nothing actionable
    assert!(twice[0].detections.is_empty());
    assert!(twice[0].secrets.is_empty());
}

#[test]
fn mask_leaves_clean_entries_alone() {
    let mut commands = vec![Command {
        shell_type: Shell::Bash,
        detections: vec![],
        command: "ls -la".to_string(),
        data: "ls -la".to_string(),
        secrets: vec![],
    }];

    Masker::new().mask_sensitive_findings(&mut commands);

    assert_eq!(commands[0].command, "ls -la");
    assert_eq!(commands[0].data, "ls -la");
    assert!(commands[0].detections.is_empty());
}

#[test]
fn mask_replaces_all_occurrences() {
    let mut commands = vec![Command {
        shell_type: Shell::Bash,
        detections: vec![Detection {
            test: "KEY=(secret99)".to_string(),
            name: "key".to_string(),
            secret_group: 1,
            id: String::new(),
        }],
        command: "echo secret99; export KEY=secret99".to_string(),
        data: "echo secret99; export KEY=secret99".to_string(),
        secrets: vec!["secret99".to_string()],
    }];

    Masker::new().mask_sensitive_findings(&mut commands);

    // eight characters, eighty percent masked: two stay visible
    assert_eq!(commands[0].command, "echo se******; export KEY=se******");
    assert_eq!(commands[0].data, "echo se******; export KEY=se******");
}
