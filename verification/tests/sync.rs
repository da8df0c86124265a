use codex_local_sync::platform::Os;
use codex_local_sync::sync::target_rollout_path;
use codex_local_sync::sync::{sync_step, SyncPhase, SyncStep};
use codex_local_sync::sync::{executable_items, sync_counts, verify_synced};
use codex_local_sync::error::AppError;
use codex_local_sync::sync::failed_sync_error;
use codex_local_sync::models::{Profile, ProfileKind, ProfileMode, ThreadSourceKind};
use codex_local_sync::sessions::ThreadSnapshot;
use codex_local_sync::sync::{preview, validate_pair, SyncAction};

fn profile(id: &str, home: &str, provider: &str) -> Profile {
    Profile {
        id: id.into(),
        name: id.into(),
        kind: ProfileKind::CustomApi,
        mode: ProfileMode::Managed,
        codex_home: home.into(),
        provider_id: provider.into(),
        app_path: None,
        discovery_source: "test".into(),
        providers: Vec::new(),
        config_profiles: Vec::new(),
        created_at: "2026-01-01T00:00:00Z".into(),
        updated_at: "2026-01-01T00:00:00Z".into(),
    }
}

fn thread(id: &str, title: &str, events: &[&str]) -> ThreadSnapshot {
    let mut lines = vec!["{\"type\":\"session_meta\"}".to_string()];
    for event in events {
        lines.push(format!("{{\"type\":\"message\",\"payload\":{{\"text\":\"{event}\"}}}}"));
    }
    ThreadSnapshot {
        thread_id: id.into(),
        title: title.into(),
        cwd: None,
        provider_id: Some("openai".into()),
        updated_at: None,
        archived: false,
        size_bytes: 10 * lines.len() as u64,
        content_sha256: lines.join("|"),
        raw_sha256: String::new(),
        source_kind: ThreadSourceKind::Cli,
        agent_nickname: None,
        parent_thread_id: None,
        rollout_path: format!("/r/{id}.jsonl"),
        normalized_lines: lines,
    }
}

#[test]
fn plans_copy_update_skip_and_conflict() {
    let source = profile("source", "/source", "openai");
    let target = profile("target", "/target", "relay");
    let sources = vec![thread("thread-1", "t", &["one", "two"])];
    let targets = vec![thread("thread-1", "t", &["one"])];
    let value = preview(&source, &target, &vec!["thread-1".into()], &sources, &targets, true)
        .expect("preview");
    assert_eq!(value.items[0].action, SyncAction::Update);
}

#[test]
fn plans_every_action_with_counts_sorted_by_title() {
    let source = profile("source", "/source", "openai");
    let target = profile("target", "/target", "relay");
    let sources = vec![
        thread("copy", "d", &["a"]),
        thread("same", "c", &["a"]),
        thread("ahead", "b", &["a"]),
        thread("diverged", "a", &["a", "b"]),
    ];
    let targets = vec![
        thread("same", "c", &["a"]),
        thread("ahead", "b", &["a", "b"]),
        thread("diverged", "a", &["a", "c"]),
    ];
    let ids: Vec<String> = ["copy", "same", "ahead", "diverged", "missing", "copy"]
        .iter()
        .map(|s| s.to_string())
        .collect();
    let value = preview(&source, &target, &ids, &sources, &targets, true).expect("preview");
    assert_eq!(value.items.len(), 5);
    let titles: Vec<&str> = value.items.iter().map(|i| i.title.as_str()).collect();
    assert_eq!(titles, vec!["a", "b", "c", "d", "missing"]);
    assert_eq!(value.items[0].action, SyncAction::Conflict);
    assert_eq!(value.items[1].action, SyncAction::SkipTargetAhead);
    assert_eq!(value.items[2].action, SyncAction::SkipIdentical);
    assert_eq!(value.items[3].action, SyncAction::Copy);
    assert_eq!(value.items[4].action, SyncAction::Invalid);
    assert_eq!(value.copy_count, 1);
    assert_eq!(value.update_count, 0);
    assert_eq!(value.conflict_count, 1);
    assert_eq!(value.skip_count, 3);
    assert_eq!(value.backup_bytes, 30);
}

#[test]
fn sync_needs_two_different_available_profiles() {
    let a = profile("a", "/same", "openai");
    let b = profile("b", "/same", "relay");
    assert!(validate_pair(&a, &a, false, true).is_err());
    assert!(validate_pair(&a, &b, true, true).is_err());
    let c = profile("c", "/other", "relay");
    assert!(validate_pair(&a, &c, false, true).is_ok());
    assert!(validate_pair(&a, &c, false, false).is_err());
    assert_eq!(
        validate_pair(&a, &c, false, false).unwrap_err().message(),
        "source or target CODEX_HOME is unavailable"
    );
    assert_eq!(validate_pair(&a, &c, true, true).unwrap_err().message(), "source and target profiles must be different");
}

#[test]
fn sync_execution_counts_and_verification() {
    let source = profile("source", "/source", "openai");
    let target = profile("target", "/target", "relay");
    let sources = vec![thread("a", "a", &["x"]), thread("b", "b", &["x", "y"])];
    let targets = vec![thread("b", "b", &["x", "z"])];
    let value = preview(&source, &target, &vec!["a".into(), "b".into()], &sources, &targets, true)
        .expect("preview");
    assert_eq!(executable_items(&value.items, false).len(), 1);
    assert_eq!(executable_items(&value.items, true).len(), 2);
    let counts = sync_counts(&value.items, false);
    assert_eq!((counts.copied, counts.updated, counts.conflicts, counts.skipped), (1, 0, 1, 0));
    let counts = sync_counts(&value.items, true);
    assert_eq!((counts.copied, counts.updated, counts.conflicts, counts.skipped), (1, 1, 0, 0));
    let refreshed = vec![thread("a", "a", &["x"])];
    let baselines = verify_synced(&value.items, false, &refreshed).expect("verified");
    assert_eq!(baselines.len(), 1);
    assert_eq!(baselines[0].thread_id, "a");
    assert_eq!(
        verify_synced(&value.items, true, &refreshed).unwrap_err().message(),
        "target verification failed for b"
    );
}

#[test]
fn failed_sync_errors_name_the_backup() {
    let e = AppError::Message("disk".into());
    assert_eq!(failed_sync_error(e.clone(), Ok(()), &None, false), e);
    assert_eq!(
        failed_sync_error(e.clone(), Err(AppError::Message("rb".into())), &None, true).message(),
        "verification failed: disk; rollback also failed: rb. Backup: not created"
    );
    assert_eq!(
        failed_sync_error(e, Err(AppError::Message("rb".into())), &Some("/b".into()), false).message(),
        "sync failed: disk; rollback also failed: rb. Backup: /b"
    );
}

#[test]
fn a_sync_backs_up_writes_verifies_and_rolls_back_on_failure() {
    let source = profile("source", "/source", "openai");
    let target = profile("target", "/target", "relay");
    let sources = vec![thread("a", "a", &["x"]), thread("b", "b", &["x", "y"])];
    let targets = vec![thread("b", "b", &["x", "z"])];
    let plan = preview(&source, &target, &vec!["a".into(), "b".into()], &sources, &targets, true).unwrap();
    let items = match sync_step(&plan, false, SyncPhase::Begin) {
        SyncStep::BackUp { items } => items,
        _ => panic!("a backup comes first"),
    };
    assert_eq!(items.len(), 1);
    assert_eq!(items[0].thread_id, "a");
    let backup = Some("/data/backups/job".to_string());
    match sync_step(&plan, false, SyncPhase::BackedUp { result: Ok("/data/backups/job".into()) }) {
        SyncStep::Write { index, item, .. } => assert_eq!((index, item.thread_id.as_str()), (0, "a")),
        _ => panic!("then the first write"),
    }
    match sync_step(&plan, false, SyncPhase::Written { backup: backup.clone(), index: 0, result: Ok(()) }) {
        SyncStep::RebuildIndex { backup: b } => assert_eq!(b, backup),
        _ => panic!("then the index"),
    }
    match sync_step(&plan, false, SyncPhase::IndexRebuilt { backup: backup.clone(), result: Err("down".into()) }) {
        SyncStep::Rescan { warning, .. } => assert_eq!(
            warning.as_deref(),
            Some("sessions were synchronized, but the official index rebuild failed: down. Restart the client to retry.")
        ),
        _ => panic!("then a rescan"),
    }
    match sync_step(&plan, false, SyncPhase::Rescanned { backup: backup.clone(), warning: None, result: Ok(vec![]) }) {
        SyncStep::RollBack { verifying, error, .. } => {
            assert!(verifying);
            assert_eq!(error.message(), "target verification failed for a");
        }
        _ => panic!("a missing session is rolled back"),
    }
    match sync_step(&plan, false, SyncPhase::BaselinesSaved { backup: backup.clone(), warning: None, result: Ok(()) }) {
        SyncStep::Finished(Ok(o)) => {
            assert_eq!((o.counts.copied, o.counts.updated, o.counts.conflicts), (1, 0, 1));
            assert!(o.index_rebuilt);
            assert_eq!(o.backup_dir, backup);
        }
        _ => panic!("finished"),
    }
    match sync_step(&plan, false, SyncPhase::Written { backup: backup.clone(), index: 0, result: Err(AppError::Message("disk".into())) }) {
        SyncStep::RollBack { verifying, .. } => assert!(!verifying),
        _ => panic!("a failed write is rolled back"),
    }
    let empty = preview(&source, &target, &vec!["b".into()], &sources, &targets, true).unwrap();
    assert!(matches!(sync_step(&empty, false, SyncPhase::Begin), SyncStep::RebuildIndex { backup: None }));
}

#[test]
fn a_home_and_the_same_home_with_a_trailing_slash_are_one_home() {
    let a = profile("a", "/x/home", "openai");
    let b = profile("b", "/x/home/", "relay");
    assert_eq!(
        preview(&a, &b, &vec![], &vec![], &vec![], true).err().unwrap().message(),
        "source and target profiles must be different"
    );
    let d = profile("d", "/x//home//", "relay");
    assert_eq!(
        preview(&a, &d, &vec![], &vec![], &vec![], true).err().unwrap().message(),
        "source and target profiles must be different"
    );
    let c = profile("c", "/x/other", "relay");
    assert!(preview(&a, &c, &vec![], &vec![], &vec![], true).is_ok());
}

#[test]
fn a_synced_session_goes_over_the_target_copy_or_to_the_same_place_under_the_target_home() {
    assert_eq!(
        target_rollout_path(Some("/t/sessions/x.jsonl"), "/s/sessions/x.jsonl", "/s", "/t", Os::Other).unwrap(),
        "/t/sessions/x.jsonl"
    );
    assert_eq!(
        target_rollout_path(None, "/s/sessions/2026/x.jsonl", "/s/", "/t", Os::Other).unwrap(),
        "/t/sessions/2026/x.jsonl"
    );
    assert_eq!(
        target_rollout_path(None, r"C:\s\sessions\x.jsonl", r"C:\s", r"D:\t", Os::Windows).unwrap(),
        r"D:\t\sessions\x.jsonl"
    );
    assert_eq!(
        target_rollout_path(None, "/other/x.jsonl", "/s", "/t", Os::Other).unwrap_err().message(),
        "source rollout is outside its CODEX_HOME: /other/x.jsonl"
    );
    assert!(target_rollout_path(None, "/sx/a.jsonl", "/s", "/t", Os::Other).is_err());
}
