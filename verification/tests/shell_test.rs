use shellclear::emoji::Emojis;
use shellclear::shell::{
    get_all_history_files, get_shell_history_path, parse_fish_history, serialize_fish_record,
    FishHistory, Shell,
};
use shellclear::state::ShellContext;
use shellclear::shell::History;

#[test]
fn can_get_all_history_files() {
    let available = vec![Shell::Bash, Shell::Zshrc, Shell::Fish];

    let files = get_all_history_files("home/user", &available);

    assert_eq!(files.len(), 3);
    assert!(matches!(files[0].shell, Shell::Bash));
    assert_eq!(files[0].path, "home/user/.bash_history");
    assert_eq!(files[0].file_name, ".bash_history");
    assert!(matches!(files[1].shell, Shell::Zshrc));
    assert_eq!(files[1].path, "home/user/.zsh_history");
    assert!(matches!(files[2].shell, Shell::Fish));
    assert_eq!(files[2].path, "home/user/.local/share/fish/fish_history");
    assert_eq!(files[2].file_name, "fish_history");
}

#[test]
fn history_path_per_shell() {
    assert_eq!(
        get_shell_history_path(&Shell::PowerShell, "h"),
        "h/AppData/Roaming/Microsoft/Windows/PowerShell/PSReadline/ConsoleHost_history.txt"
    );
}

#[test]
fn fish_parse_and_serialize_round_trip() {
    let records = vec![
        FishHistory {
            cmd: "ls".to_string(),
            when: "1656438759".to_string(),
        },
        FishHistory {
            cmd: "echo 'hello you'".to_string(),
            when: "1656438760".to_string(),
        },
    ];

    let mut content = String::new();
    for r in &records {
        content.push_str(&serialize_fish_record(r));
        content.push('\n');
    }

    let parsed = parse_fish_history(&content).unwrap();
    assert_eq!(parsed.len(), 2);
    assert_eq!(parsed[0].cmd, records[0].cmd);
    assert_eq!(parsed[0].when, records[0].when);
    assert_eq!(parsed[1].cmd, records[1].cmd);
    assert_eq!(parsed[1].when, records[1].when);
}

#[test]
fn fish_parse_rejects_broken_records() {
    assert!(parse_fish_history("- cmd: ls\n").is_none());
    assert!(parse_fish_history("when: 7\n- cmd: ls\n").is_none());
}

#[test]
fn shell_context_folders() {
    let context = ShellContext {
        app_folder_path: "state".to_string(),
        history: History {
            shell: Shell::Fish,
            path: "h/.local/share/fish/fish_history".to_string(),
            file_name: "fish_history".to_string(),
        },
    };

    assert_eq!(context.get_backup_folder(), "state/backups/fish");
    assert_eq!(context.get_stash_folder(), "state/stash");
    assert_eq!(context.get_stash_file_path(), "state/stash/fish_history");
}

#[test]
fn emojis_default_and_plain() {
    let icons = Emojis::default();
    assert_eq!(icons.alarm, "\u{1f6a8}");
    assert_eq!(icons.confetti, "\u{1f389}");
    let plain = Emojis::plain();
    assert!(plain.alarm.is_empty() && plain.confetti.is_empty());
}
