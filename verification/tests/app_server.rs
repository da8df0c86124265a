use codex_local_sync::app_server::{
    append_thread_page, candidate_key, detect, from_app_path, interactive_filters,
    is_protected_windows_apps_path, launch_candidates, next_page_cursor, select_candidates,
};
use codex_local_sync::payload::JsonValue;
use codex_local_sync::platform::Os;

#[test]
fn protected_windows_apps_binaries_are_not_launch_candidates() {
    let protected =
        "C:/Program Files/WindowsApps/OpenAI.Codex_1.0.0.0_x64__publisher/app/resources/codex.exe";
    let cached = "C:/Users/demo/AppData/Local/OpenAI/Codex/bin/version/codex.exe";
    assert!(is_protected_windows_apps_path(protected, Os::Windows));
    assert!(!is_protected_windows_apps_path(protected, Os::Other));
    assert!(!is_protected_windows_apps_path(cached, Os::Windows));
    assert!(!is_protected_windows_apps_path(cached, Os::Other));
}

#[test]
fn candidate_keys_fold_separators_and_case_only_on_windows() {
    assert_eq!(candidate_key(r"C:\Tools\Codex.exe", Os::Windows), "c:/tools/codex.exe");
    assert_eq!(candidate_key(r"/opt/Codex\x", Os::Other), "/opt/Codex/x");
}

#[test]
fn client_paths_lead_to_the_bundled_app_server() {
    assert_eq!(
        from_app_path("/Applications/ChatGPT.app", Os::MacOs),
        vec!["/Applications/ChatGPT.app/Contents/Resources/codex".to_string()]
    );
    assert_eq!(
        from_app_path(r"C:\Apps\ChatGPT\ChatGPT.exe", Os::Windows),
        vec![r"C:\Apps\ChatGPT\resources/codex.exe".to_string()]
    );
    assert_eq!(from_app_path("/usr/bin/codex", Os::Other), vec!["/usr/bin/codex".to_string()]);
}

#[test]
fn detection_skips_protected_copies_and_repeats() {
    let existing = vec![
        "C:/Program Files/WindowsApps/OpenAI.Codex/app/codex.exe".to_string(),
        r"C:\Tools\codex.exe".to_string(),
        "c:/tools/CODEX.exe".to_string(),
        "D:/other/codex.exe".to_string(),
    ];
    assert_eq!(
        select_candidates(&existing, Os::Windows),
        vec![r"C:\Tools\codex.exe".to_string(), "D:/other/codex.exe".to_string()]
    );
    assert_eq!(detect(&existing, Os::Windows).as_deref(), Some(r"C:\Tools\codex.exe"));
    assert_eq!(detect(&Vec::new(), Os::Other), None);
}

#[test]
fn candidates_come_in_the_documented_order() {
    let found = launch_candidates(
        Some("/Applications/Codex.app"),
        Some("/custom/codex"),
        &vec!["/cached/codex".to_string()],
        &vec!["/usr/bin".to_string(), "/bin/".to_string()],
        &vec!["/root".to_string()],
        Os::MacOs,
    );
    assert_eq!(
        found,
        vec![
            "/Applications/Codex.app/Contents/Resources/codex".to_string(),
            "/custom/codex".to_string(),
            "/usr/bin/codex".to_string(),
            "/bin/codex".to_string(),
            "/Applications/ChatGPT.app/Contents/Resources/codex".to_string(),
            "/Applications/Codex.app/Contents/Resources/codex".to_string(),
        ]
    );
    let windows = launch_candidates(Some("  "), None, &vec![], &vec![], &vec![r"C:\P".to_string()], Os::Windows);
    assert_eq!(
        windows,
        vec![
            r"C:\P\OpenAI/ChatGPT/resources/codex.exe".to_string(),
            r"C:\P\OpenAI/Codex/resources/codex.exe".to_string(),
        ]
    );
}

#[test]
fn interactive_filters_list_cli_and_editor_threads() {
    let filters = interactive_filters(Some("relay"));
    assert_eq!(filters.model_providers, Some(vec!["relay".to_string()]));
    assert_eq!(filters.source_kinds, Some(vec!["cli".to_string(), "vscode".to_string()]));
    assert!(!filters.archived);
    assert_eq!(interactive_filters(None).model_providers, None);
}

fn text(s: &str) -> JsonValue {
    JsonValue::Text(s.to_string())
}

fn obj(entries: Vec<(&str, JsonValue)>) -> JsonValue {
    JsonValue::Object(entries.into_iter().map(|(k, v)| (k.to_string(), v)).collect())
}

#[test]
fn appends_thread_pages_and_reads_cursor() {
    let mut threads = Vec::new();
    let cursor = append_thread_page(
        obj(vec![
            ("data", JsonValue::Array(vec![obj(vec![("id", text("one"))])])),
            ("nextCursor", text("page-2")),
        ]),
        &mut threads,
    )
    .expect("page");
    assert_eq!(threads.len(), 1);
    assert_eq!(cursor.as_deref(), Some("page-2"));

    let cursor = append_thread_page(
        obj(vec![
            ("data", JsonValue::Array(vec![obj(vec![("id", text("two"))])])),
            ("nextCursor", JsonValue::Null),
        ]),
        &mut threads,
    )
    .expect("page");
    assert_eq!(threads.len(), 2);
    assert!(cursor.is_none());
}

#[test]
fn pages_without_threads_and_repeated_cursors_are_errors() {
    let mut threads = Vec::new();
    assert!(append_thread_page(obj(vec![("items", JsonValue::Array(Vec::new()))]), &mut threads).is_err());
    let cursor = append_thread_page(
        obj(vec![("threads", JsonValue::Array(vec![JsonValue::Null])), ("next_cursor", text(""))]),
        &mut threads,
    )
    .unwrap();
    assert_eq!(threads.len(), 1);
    assert_eq!(cursor, None);
    let mut seen = Vec::new();
    assert_eq!(next_page_cursor(Some("a".into()), &mut seen).unwrap(), Some("a".to_string()));
    assert_eq!(next_page_cursor(None, &mut seen).unwrap(), None);
    assert!(next_page_cursor(Some("a".into()), &mut seen).is_err());
}
