use shellclear::config::{get_patter_ignore_multi_choice, Config};
use shellclear::data::Detection;

#[test]
fn new_config_from_string() {
    let cfg_dir = "home/user1";
    let config = Config::with_custom_path(cfg_dir);
    assert_eq!(config.app_path, format!("{}/{}", cfg_dir, "shellclear"));
    assert_eq!(
        config.ignore_sensitive_path,
        format!("{}/{}/{}", cfg_dir, "shellclear", "ignores.yaml")
    );
    assert_eq!(
        config.sensitive_commands_path,
        format!("{}/{}/{}", cfg_dir, "shellclear", "sensitive-patterns.yaml")
    );
}

#[test]
fn can_get_sensitive_pattern_name() {
    let config = Config::with_custom_path("base");
    assert_eq!(
        config.sensitive_commands_path.replace("base", ""),
        "/shellclear/sensitive-patterns.yaml"
    );
}

fn test_patterns() -> Vec<Detection> {
    vec![
        Detection {
            test: "test".to_string(),
            name: "test-1".to_string(),
            secret_group: 0,
            id: "id-1".to_string(),
        },
        Detection {
            test: "test".to_string(),
            name: "test-2".to_string(),
            secret_group: 0,
            id: "id-2".to_string(),
        },
        Detection {
            test: "test".to_string(),
            name: "test-3".to_string(),
            secret_group: 0,
            id: "id-3".to_string(),
        },
    ]
}

#[test]
fn can_run_prepare_multi_choice_data() {
    let ignores = vec!["id-3".to_string()];

    let (selectable, preselected) = get_patter_ignore_multi_choice(&test_patterns(), &ignores);

    assert_eq!(selectable, vec!["test-1".to_string(), "test-2".to_string()]);
    assert_eq!(preselected, vec!["test-3".to_string()]);
}

#[test]
fn multi_choice_without_ignores_selects_nothing() {
    let (selectable, preselected) = get_patter_ignore_multi_choice(&test_patterns(), &vec![]);

    assert_eq!(selectable.len(), 3);
    assert!(preselected.is_empty());
}
