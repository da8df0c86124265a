use codex_local_sync::platform::Os;
use codex_local_sync::process::ProcessInfo;
use codex_local_sync::process_tree::collect_process_tree_pids;
use codex_local_sync::process::{
    ensure_stopped, force_restart, is_desktop_client_process, is_openai_chatgpt_package,
    is_restartable_application_path, is_restartable_client_path, matches_target_client,
    normalize_text, preferred_restart_target, repair_and_restart, select_root_pids,
    target_from_executable, windows_app_user_model_id, windows_store_family_from_path,
    MatchingProcess, RestartAction, RestartPhase, RestartTarget, StopAction, StopPhase,
};

const OFFICIAL_CODEX_APP_ID: &str = "OpenAI.Codex_2p2nqsd0c76g0!App";

#[test]
fn excludes_codex_cli_from_desktop_processes() {
    assert!(!is_desktop_client_process(
        "codex",
        Some(r"C:\Users\tester\AppData\Roaming\npm\node_modules\@openai\codex\bin\codex.exe")
    ));
    assert!(!is_desktop_client_process("codex", None));
    assert!(!is_restartable_application_path(
        r"C:\Users\tester\AppData\Roaming\npm\codex.exe",
        Os::Windows,
    ));
    for os in [Os::Windows, Os::MacOs, Os::Other] {
        assert!(is_restartable_client_path(r"C:\Program Files\OpenAI\ChatGPT\ChatGPT.exe", os));
        assert!(!is_restartable_client_path(r"C:\Users\tester\AppData\Roaming\npm\codex.exe", os));
    }
}

#[test]
fn trailing_dot_components_and_drive_prefixes_are_not_file_names() {
    assert!(is_restartable_client_path("/opt/ChatGPT/ChatGPT.exe/.", Os::Other));
    assert!(is_restartable_client_path("  /opt/ChatGPT/chatgpt/./  ", Os::MacOs));
    assert!(!is_restartable_client_path(".", Os::Other));
    assert!(!is_restartable_client_path("C:", Os::Windows));
    assert!(is_restartable_client_path("C:ChatGPT.exe", Os::Windows));
}

#[test]
fn recognizes_desktop_processes_on_windows_and_macos() {
    assert!(is_desktop_client_process(
        "chatgpt",
        Some(r"C:\Program Files\WindowsApps\OpenAI.Codex\ChatGPT.exe")
    ));
    assert!(is_desktop_client_process(
        "codex",
        Some("/Applications/Codex.app/Contents/MacOS/Codex")
    ));
}

#[test]
fn custom_home_does_not_match_saved_desktop_path_without_explicit_environment() {
    let app_path = r"C:\Program Files\WindowsApps\OpenAI.Codex\app\ChatGPT.exe";
    assert!(!matches_target_client(
        r"f:\codex",
        false,
        Some(app_path),
        "chatgpt",
        Some(app_path),
        "ChatGPT.exe",
        "",
    ));
}

#[test]
fn explicit_home_matches_saved_desktop_path_for_custom_home() {
    let app_path = r"C:\Program Files\WindowsApps\OpenAI.Codex\app\ChatGPT.exe";
    assert!(matches_target_client(
        r"f:\codex",
        false,
        Some(app_path),
        "chatgpt",
        Some(app_path),
        "ChatGPT.exe",
        r"CODEX_HOME=F:\codex",
    ));
}

#[test]
fn excludes_chromium_auxiliary_processes_from_exit_waiting() {
    let app_path = r"C:\Program Files\WindowsApps\OpenAI.Codex\app\ChatGPT.exe";
    assert!(!matches_target_client(
        r"f:\codex",
        true,
        Some(app_path),
        "chatgpt",
        Some(app_path),
        &format!(r#""{app_path}" --type=renderer --renderer-client-id=3"#),
        "",
    ));
    assert!(!matches_target_client(
        r"f:\codex",
        true,
        Some(app_path),
        "chatgpt",
        Some(app_path),
        &format!(r#""{app_path}" --type=crashpad-handler"#),
        "",
    ));
    assert!(matches_target_client(
        r"f:\codex",
        true,
        Some(app_path),
        "chatgpt",
        Some(app_path),
        &format!(r#""{app_path}""#),
        "",
    ));
}

#[test]
fn excludes_app_server_processes_from_desktop_matching() {
    let app_path = r"C:\Program Files\WindowsApps\OpenAI.Codex\app\ChatGPT.exe";
    assert!(!matches_target_client(
        r"f:\codex",
        true,
        Some(app_path),
        "chatgpt",
        Some(app_path),
        &format!(r#""{app_path}" app-server --listen stdio://"#),
        "",
    ));
}

#[test]
fn normalizes_windows_extended_path_prefixes() {
    assert_eq!(
        normalize_text(r"CODEX_HOME=\\?\F:\Codex"),
        normalize_text(r"CODEX_HOME=F:\Codex"),
    );
}

#[test]
fn explicit_codex_home_matches_take_priority() {
    assert_eq!(select_root_pids(false, vec![11, 12], vec![21]), vec![11, 12]);
}

#[test]
fn custom_codex_home_rejects_ambiguous_unlabeled_instances() {
    assert!(select_root_pids(false, Vec::new(), vec![21, 22]).is_empty());
    assert!(select_root_pids(false, Vec::new(), vec![21]).is_empty());
}

#[test]
fn default_codex_home_accepts_unlabeled_matching_instances() {
    assert_eq!(select_root_pids(true, Vec::new(), vec![21, 22]), vec![21, 22]);
    assert_eq!(select_root_pids(true, vec![11], vec![21]), vec![11, 21]);
}

#[test]
fn classifies_saved_windows_paths_as_legacy_or_standalone_targets() {
    let legacy_path =
        "C:/Program Files/WindowsApps/OpenAI.Codex_1.0_x64__publisher/app/ChatGPT.exe";
    let standalone_path = "C:/Users/demo/AppData/Local/Programs/ChatGPT/ChatGPT.exe";
    match target_from_executable(legacy_path, Os::Windows) {
        Some(RestartTarget::LegacyPath {
            executable,
            working_directory,
        }) => {
            assert_eq!(executable, legacy_path);
            assert_eq!(
                working_directory.as_deref(),
                Some("C:/Program Files/WindowsApps/OpenAI.Codex_1.0_x64__publisher/app")
            );
        }
        target => panic!("unexpected legacy target: {target:?}"),
    }
    match target_from_executable(standalone_path, Os::Windows) {
        Some(RestartTarget::Standalone {
            executable,
            working_directory,
        }) => {
            assert_eq!(executable, standalone_path);
            assert_eq!(
                working_directory.as_deref(),
                Some("C:/Users/demo/AppData/Local/Programs/ChatGPT")
            );
        }
        target => panic!("unexpected standalone target: {target:?}"),
    }
}

#[test]
fn builds_the_store_app_user_model_id_from_the_detected_package_family() {
    assert_eq!(
        windows_app_user_model_id("OpenAI.Codex_2p2nqsd0c76g0"),
        OFFICIAL_CODEX_APP_ID,
    );
}

#[test]
fn recognizes_supported_openai_chatgpt_package_names() {
    assert!(is_openai_chatgpt_package("OpenAI.Codex"));
    assert!(is_openai_chatgpt_package("OpenAI.ChatGPT-Desktop"));
    assert!(!is_openai_chatgpt_package("Example.ChatGPT"));
}

#[test]
fn derives_store_family_from_saved_chatgpt_path() {
    let path = r"C:\Program Files\WindowsApps\OpenAI.ChatGPT_1.2.3.0_x64__publisher\app\ChatGPT.exe";
    assert_eq!(
        windows_store_family_from_path(path).as_deref(),
        Some("OpenAI.ChatGPT_1.2.3.0_x64__publisher"),
    );
}

#[test]
fn shutdown_asks_running_clients_to_exit_then_forces_only_when_allowed() {
    let matching = vec![
        MatchingProcess { pid: 7, executable: None },
        MatchingProcess { pid: 9, executable: Some("/opt/ChatGPT".to_string()) },
    ];
    match ensure_stopped(&matching, StopPhase::Begin, false) {
        StopAction::RequestExit { pids } => assert_eq!(pids, vec![7, 9]),
        other => panic!("unexpected {other:?}"),
    }
    match ensure_stopped(&matching, StopPhase::AfterGracefulWait { exited: false }, false) {
        StopAction::Failed(error) => {
            assert_eq!(error.message(), "ChatGPT 客户端未正常退出，请确认后强制关闭并重试")
        }
        other => panic!("unexpected {other:?}"),
    }
    assert!(matches!(
        ensure_stopped(&matching, StopPhase::AfterGracefulWait { exited: false }, true),
        StopAction::ForceExit
    ));
    match ensure_stopped(&matching, StopPhase::AfterForcedWait { exited: true }, true) {
        StopAction::Finished(outcome) => {
            assert!(outcome.closed);
            assert_eq!(outcome.executable.as_deref(), Some("/opt/ChatGPT"));
        }
        other => panic!("unexpected {other:?}"),
    }
    match ensure_stopped(&Vec::new(), StopPhase::Begin, false) {
        StopAction::Finished(outcome) => assert!(!outcome.closed),
        other => panic!("unexpected {other:?}"),
    }
}

#[test]
fn forced_restart_without_a_target_restarts_nothing() {
    assert!(matches!(
        force_restart(false, &vec![1], RestartPhase::Begin),
        RestartAction::Finished(false)
    ));
    assert!(matches!(
        force_restart(true, &Vec::new(), RestartPhase::Begin),
        RestartAction::Launch
    ));
    match force_restart(true, &vec![4, 5], RestartPhase::Begin) {
        RestartAction::StopTree { pids } => assert_eq!(pids, vec![4, 5]),
        other => panic!("unexpected {other:?}"),
    }
    match force_restart(true, &vec![4], RestartPhase::AfterStartWait { started: false }) {
        RestartAction::Failed(error) => assert_eq!(error.message(), "ChatGPT 启动失败，请手动启动"),
        other => panic!("unexpected {other:?}"),
    }
}

#[test]
fn repair_needs_a_target_and_hands_back_its_own_error() {
    match repair_and_restart(false, &Vec::new(), RestartPhase::Begin) {
        RestartAction::Failed(error) => assert_eq!(error.message(), "未检测到 ChatGPT 启动路径"),
        other => panic!("unexpected {other:?}"),
    }
    assert!(matches!(
        repair_and_restart(true, &Vec::new(), RestartPhase::Begin),
        RestartAction::Repair
    ));
    assert!(matches!(
        repair_and_restart(true, &Vec::new(), RestartPhase::AfterRepair { ok: false }),
        RestartAction::ReturnRepairError
    ));
    match repair_and_restart(true, &vec![3], RestartPhase::AfterExitWait { exited: false }) {
        RestartAction::Failed(error) => {
            assert_eq!(error.message(), "ChatGPT 进程未能完全结束，已停止重启")
        }
        other => panic!("unexpected {other:?}"),
    }
}

#[test]
fn the_running_client_is_preferred_over_the_saved_path() {
    let running = RestartTarget::MacApplication { application: "/Applications/ChatGPT.app".into() };
    match preferred_restart_target(Some(running), Some("/x/ChatGPT.app"), true, Os::MacOs) {
        Some(RestartTarget::MacApplication { application }) => {
            assert_eq!(application, "/Applications/ChatGPT.app")
        }
        other => panic!("unexpected {other:?}"),
    }
    assert!(preferred_restart_target(None, Some("/x/ChatGPT.exe"), false, Os::Other).is_none());
    assert!(preferred_restart_target(None, Some("/x/codex"), true, Os::Other).is_none());
}

fn proc_info(pid: u32, parent: Option<u32>) -> ProcessInfo {
    ProcessInfo {
        pid,
        parent,
        name: String::new(),
        executable: None,
        command: Vec::new(),
        environment: Vec::new(),
    }
}

#[test]
fn process_tree_holds_roots_and_all_descendants_deepest_first() {
    let processes = vec![
        proc_info(1, None),
        proc_info(10, Some(1)),
        proc_info(11, Some(10)),
        proc_info(12, Some(11)),
        proc_info(20, Some(2)),
        proc_info(13, Some(10)),
    ];
    let pids = collect_process_tree_pids(&processes, &vec![10]);
    assert_eq!(pids, vec![12, 13, 11, 10]);
    let mut all = collect_process_tree_pids(&processes, &vec![1, 10]);
    all.sort();
    assert_eq!(all, vec![1, 10, 11, 12, 13]);
}

#[test]
fn a_launched_client_counts_as_restarted_only_once_seen() {
    assert_eq!(codex_local_sync::process::restart_outcome(true).unwrap(), true);
    assert_eq!(
        codex_local_sync::process::restart_outcome(false).unwrap_err().message(),
        "已发送 ChatGPT 启动命令，但未检测到 ChatGPT 进程"
    );
}
