use codex_local_sync::buckets::{parent_links, provider_scan_from_snapshots, sort_buckets};
use codex_local_sync::models::{
    Profile, ProfileKind, ProfileMode, ProviderBucket, ThreadSourceKind,
};
use codex_local_sync::sessions::ThreadSnapshot;

fn profile(provider: &str) -> Profile {
    Profile {
        id: "profile".into(),
        name: "profile".into(),
        kind: ProfileKind::CustomApi,
        mode: ProfileMode::External,
        codex_home: "/home/profile".into(),
        provider_id: provider.into(),
        app_path: None,
        discovery_source: "test".into(),
        providers: Vec::new(),
        config_profiles: Vec::new(),
        created_at: String::new(),
        updated_at: String::new(),
    }
}

fn thread(id: &str, provider: &str, source: ThreadSourceKind, archived: bool) -> ThreadSnapshot {
    ThreadSnapshot {
        thread_id: id.into(),
        title: id.into(),
        cwd: None,
        provider_id: Some(provider.into()),
        updated_at: None,
        archived,
        size_bytes: 1,
        content_sha256: String::new(),
        raw_sha256: String::new(),
        source_kind: source,
        agent_nickname: None,
        parent_thread_id: None,
        rollout_path: String::new(),
        normalized_lines: Vec::new(),
    }
}

#[test]
fn official_provider_comes_first_without_changing_ids() {
    let snapshots = vec![
        thread("one", "OpenAI-API", ThreadSourceKind::Vscode, false),
        thread("two", "custom", ThreadSourceKind::Cli, false),
        thread("three", "openai", ThreadSourceKind::Vscode, false),
    ];
    let scan =
        provider_scan_from_snapshots(&profile("custom"), "custom", &Vec::new(), &snapshots, &Vec::new())
            .unwrap();
    assert_eq!(scan.buckets[0].provider_id, "openai");
    assert_eq!(scan.buckets[1].provider_id, "custom");
    assert!(scan.buckets[1].is_current);
    assert!(scan.buckets.iter().any(|b| b.provider_id == "OpenAI-API"));
    assert_eq!(scan.buckets.len(), 3);
}

#[test]
fn blank_current_provider_is_an_error() {
    let result =
        provider_scan_from_snapshots(&profile("custom"), "  ", &Vec::new(), &Vec::new(), &Vec::new());
    assert!(result.is_err());
}

#[test]
fn cards_count_root_archived_and_internal_threads() {
    let snapshots = vec![
        thread("a", "custom", ThreadSourceKind::Cli, false),
        thread("b", "custom", ThreadSourceKind::Cli, true),
        thread("c", "custom", ThreadSourceKind::Internal, false),
    ];
    let scan =
        provider_scan_from_snapshots(&profile("custom"), "custom", &Vec::new(), &snapshots, &Vec::new())
            .unwrap();
    let card = scan.buckets.iter().find(|b| b.provider_id == "custom").unwrap();
    assert_eq!(card.active_root_thread_count, 1);
    assert_eq!(card.archived_thread_count, 1);
    assert_eq!(card.internal_thread_count, 1);
}

#[test]
fn sorting_cards() {
    let bucket = |id: &str, current: bool| ProviderBucket {
        profile_id: "p".into(),
        provider_id: id.into(),
        is_current: current,
        active_root_thread_count: 0,
        archived_thread_count: 0,
        internal_thread_count: 0,
        replicated_count: 0,
    };
    let sorted = sort_buckets(vec![
        bucket("zeta", false),
        bucket("Alpha", false),
        bucket("mine", true),
        bucket("OpenAI", false),
    ]);
    let ids: Vec<&str> = sorted.iter().map(|b| b.provider_id.as_str()).collect();
    assert_eq!(ids, vec!["OpenAI", "mine", "Alpha", "zeta"]);
}

#[test]
fn parent_links_swap_rows_and_drop_blank_ends() {
    let rows = vec![
        ("parent".to_string(), "child".to_string()),
        (" ".to_string(), "orphan".to_string()),
        ("p2".to_string(), "c2".to_string()),
    ];
    let links = parent_links(&rows);
    assert_eq!(
        links,
        vec![
            ("child".to_string(), "parent".to_string()),
            ("c2".to_string(), "p2".to_string())
        ]
    );
}
