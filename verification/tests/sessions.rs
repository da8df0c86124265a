use codex_local_sync::sessions::{is_rollout_name, latest_state_database, state_database_version};
use codex_local_sync::models::{Profile, ProfileKind, ProfileMode, ThreadSourceKind};
use codex_local_sync::sessions::{aggregate_sessions, is_later, ThreadSnapshot};

fn profile(id: &str, provider: &str) -> Profile {
    Profile {
        id: id.into(),
        name: format!("name-{id}"),
        kind: ProfileKind::CustomApi,
        mode: ProfileMode::External,
        codex_home: format!("/{id}"),
        provider_id: provider.into(),
        app_path: None,
        discovery_source: "test".into(),
        providers: Vec::new(),
        config_profiles: Vec::new(),
        created_at: String::new(),
        updated_at: String::new(),
    }
}

fn thread(id: &str, title: &str, updated: Option<&str>) -> ThreadSnapshot {
    ThreadSnapshot {
        thread_id: id.into(),
        title: title.into(),
        cwd: None,
        provider_id: Some("openai".into()),
        updated_at: updated.map(str::to_string),
        archived: false,
        size_bytes: 1,
        content_sha256: String::new(),
        raw_sha256: String::new(),
        source_kind: ThreadSourceKind::Vscode,
        agent_nickname: None,
        parent_thread_id: None,
        rollout_path: String::new(),
        normalized_lines: Vec::new(),
    }
}

#[test]
fn one_record_per_thread_with_every_location_newest_first() {
    let groups = vec![
        (
            profile("a", "openai"),
            vec![thread("t1", "old title", Some("2026-01-01")), thread("t2", "two", None)],
        ),
        (profile("b", "relay"), vec![thread("t1", "new title", Some("2026-02-01"))]),
    ];
    let records = aggregate_sessions(&groups);
    assert_eq!(records.len(), 2);
    assert_eq!(records[0].thread_id, "t1");
    assert_eq!(records[0].title, "new title");
    assert_eq!(records[0].locations.len(), 2);
    assert_eq!(records[0].locations[0].profile_id, "a");
    assert_eq!(records[0].locations[1].profile_id, "b");
    assert_eq!(records[0].locations[1].provider_id, "relay");
    assert_eq!(records[1].thread_id, "t2");
}

#[test]
fn later_timestamps_and_missing_ones() {
    let a = Some("2026-02-01".to_string());
    let b = Some("2026-01-01".to_string());
    assert!(is_later(&a, &b));
    assert!(!is_later(&b, &a));
    assert!(is_later(&a, &None));
    assert!(!is_later(&None, &a));
    assert!(!is_later(&a, &a));
}

#[test]
fn rollout_names_and_state_database_versions() {
    assert!(is_rollout_name("rollout-2026-01-01.jsonl"));
    assert!(!is_rollout_name("rollout-2026.json"));
    assert_eq!(state_database_version("state_3.sqlite"), Some(3));
    assert_eq!(state_database_version("state_+7.sqlite"), Some(7));
    assert_eq!(state_database_version("state_.sqlite"), None);
    assert_eq!(state_database_version("state_x.sqlite"), None);
    assert_eq!(state_database_version("state_18446744073709551616.sqlite"), None);
    assert_eq!(state_database_version("state_18446744073709551615.sqlite"), Some(u64::MAX));
    let names = vec![
        "state_1.sqlite".to_string(),
        "other".to_string(),
        "state_3.sqlite".to_string(),
        "state_03.sqlite".to_string(),
        "state_2.sqlite".to_string(),
    ];
    assert_eq!(latest_state_database(&names), Some(3));
    assert_eq!(latest_state_database(&vec!["a".to_string()]), None);
}

#[test]
fn sessions_updated_at_the_same_time_keep_their_listed_order() {
    let groups = vec![
        (
            profile("a", "openai"),
            vec![thread("t3", "c", Some("2026-01-01")), thread("t1", "a", Some("2026-03-01"))],
        ),
        (
            profile("b", "relay"),
            vec![thread("t2", "b", Some("2026-01-01")), thread("t4", "d", None), thread("t5", "e", Some("2026-01-01"))],
        ),
    ];
    let order: Vec<String> = aggregate_sessions(&groups).into_iter().map(|r| r.thread_id).collect();
    assert_eq!(order, vec!["t1", "t3", "t2", "t5", "t4"]);
}
