use codex_local_sync::discovery::{
    command_line_codex_homes, environment_value, is_codex_config, is_state_database_name,
    normalized_path_key, profile_name_of_file, restartable_process_path, sibling_root,
    supported_process_stem,
};
use codex_local_sync::discovery::{is_codex_home, HomeFingerprint};
use codex_local_sync::platform::Os;

#[test]
fn cli_process_is_not_saved_as_the_restartable_client() {
    let cli = "C:/Program Files/WindowsApps/OpenAI.Codex/app/resources/codex.exe";
    let desktop = "C:/Program Files/WindowsApps/OpenAI.Codex/app/ChatGPT.exe";
    assert_eq!(restartable_process_path("codex", Some(cli), Os::Windows), None);
    assert_eq!(
        restartable_process_path("chatgpt", Some(desktop), Os::Windows),
        Some(desktop.to_string())
    );
}

#[test]
fn extracts_common_codex_home_command_line_forms() {
    let values = command_line_codex_homes(&vec![
        "codex".to_string(),
        "--codex-home=C:/one".to_string(),
        "--env".to_string(),
        "CODEX_HOME".to_string(),
        "C:/two".to_string(),
        "$env:CODEX_HOME=C:/three".to_string(),
    ]);
    assert_eq!(
        values,
        vec!["C:/one".to_string(), "C:/two".to_string(), "C:/three".to_string()]
    );
}

#[test]
fn environment_entries_are_matched_by_name() {
    assert_eq!(
        environment_value("CODEX_HOME=/tmp/a", "CODEX_HOME"),
        Some("/tmp/a".to_string())
    );
    assert_eq!(environment_value("OTHER=/tmp/a", "CODEX_HOME"), None);
}

#[test]
fn supported_stems_and_profile_files() {
    assert_eq!(supported_process_stem("Codex.exe"), Some("codex".to_string()));
    assert_eq!(supported_process_stem("notepad.exe"), None);
    assert_eq!(profile_name_of_file("work.config.toml"), Some("work".to_string()));
    assert_eq!(profile_name_of_file("config.toml"), None);
}

#[test]
fn path_keys_and_sibling_roots() {
    assert_eq!(normalized_path_key("C:\\Users\\A\\.codex", Os::Windows), "c:/users/a/.codex");
    assert_eq!(normalized_path_key("/Users/A/.codex", Os::MacOs), "/Users/A/.codex");
    assert_eq!(sibling_root("/home/a/.codex", Os::Other), Some("/home/a".to_string()));
}

#[test]
fn recognizes_codex_configs_and_state_databases() {
    assert!(is_codex_config(&vec!["model_provider".to_string()]));
    assert!(!is_codex_config(&vec!["build".to_string()]));
    assert!(is_state_database_name("state_3.sqlite"));
    assert!(!is_state_database_name("logs_3.sqlite"));
}

#[test]
fn codex_homes_are_recognized_by_their_files() {
    let none = HomeFingerprint {
        is_dir: true,
        has_session_index: false,
        has_global_state: false,
        has_sessions: false,
        has_archived_sessions: false,
        has_state_database: false,
        has_sqlite_state_database: false,
        has_codex_config: false,
    };
    assert!(!is_codex_home(none));
    assert!(is_codex_home(HomeFingerprint { has_sessions: true, ..none }));
    assert!(is_codex_home(HomeFingerprint { has_codex_config: true, ..none }));
    assert!(!is_codex_home(HomeFingerprint { is_dir: false, has_sessions: true, ..none }));
}
