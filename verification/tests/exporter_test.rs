use shellclear::data::{Command, ShellclearError};
use shellclear::exporter::{chunk, extract_time, LIMIT_COMMAND};
use shellclear::shell::Shell;

fn finding(shell: Shell, data: &str) -> Command {
    Command {
        shell_type: shell,
        detections: vec![],
        command: "test command".to_string(),
        data: data.to_string(),
        secrets: vec![],
    }
}

#[test]
fn can_extract_time_zshrc() {
    let shell_finding = finding(Shell::Zshrc, ": 1655110559:0;command data");

    let resp = extract_time(&shell_finding);

    assert_eq!(resp.unwrap(), "2022-06-13 08:55:59");
}

#[test]
fn can_extract_time_fish() {
    let shell_finding = finding(
        Shell::Fish,
        "{ cmd: \"export test command\", when: \"1655110559\" }",
    );

    let resp = extract_time(&shell_finding);

    assert_eq!(resp.unwrap(), "2022-06-13 08:55:59");
}

#[test]
fn extract_time_from_canonical_fish_record() {
    let shell_finding = finding(Shell::Fish, "- cmd: ls\n  when: 1655110559");

    let resp = extract_time(&shell_finding);

    assert_eq!(resp.unwrap(), "2022-06-13 08:55:59");
}

#[test]
fn extract_time_without_zsh_prefix_is_empty() {
    let shell_finding = finding(Shell::Zshrc, "plain command");

    assert_eq!(extract_time(&shell_finding).unwrap(), "");
}

#[test]
fn extract_time_for_plain_shells_is_empty() {
    let shell_finding = finding(Shell::Bash, "ls -la");

    assert_eq!(extract_time(&shell_finding).unwrap(), "");
}

#[test]
fn extract_time_fish_without_timestamp_fails() {
    let shell_finding = finding(Shell::Fish, "- cmd: ls");

    assert_eq!(extract_time(&shell_finding), Err(ShellclearError::Parse));
}

#[test]
fn extract_time_overflowing_timestamp_fails() {
    let shell_finding = finding(Shell::Zshrc, ": 99999999999999999999:0;x");

    assert_eq!(
        extract_time(&shell_finding),
        Err(ShellclearError::Timestamp)
    );
}

#[test]
fn extract_time_unrepresentable_instant_fails() {
    // fits in the integer type, but not in the calendar
    let shell_finding = finding(Shell::Zshrc, ": 9223372036854775807:0;x");

    assert_eq!(
        extract_time(&shell_finding),
        Err(ShellclearError::Timestamp)
    );
}

#[test]
fn chunk_splits_on_size() {
    assert_eq!(chunk("abcdefghij", 4), "abcd\r\nefgh\r\nij");
}

#[test]
fn chunk_exact_multiple_has_no_trailing_break() {
    assert_eq!(chunk("abcd", 2), "ab\r\ncd");
}

#[test]
fn chunk_short_text_stays_whole() {
    assert_eq!(chunk("short", LIMIT_COMMAND), "short");
    assert_eq!(chunk("", 3), "");
}
