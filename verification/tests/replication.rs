use codex_local_sync::replication::{cleanup_step, CleanupPhase, CleanupStep};
use codex_local_sync::models::ReplicaMapping;
use codex_local_sync::replication::archived_pairs;
use codex_local_sync::sessions::ThreadSnapshot;
use codex_local_sync::models::{ArchiveCleanupItem, ThreadSourceKind};
use codex_local_sync::replication::{classify_cleanup_attempt, is_official_provider, CleanupScope};

fn item(id: &str) -> ArchiveCleanupItem {
    ArchiveCleanupItem {
        thread_id: id.into(),
        title: "已不存在的归档会话".into(),
        provider_id: "custom".into(),
        source_kind: ThreadSourceKind::Cli,
        updated_at: None,
        size_bytes: 42,
    }
}

#[test]
fn archive_cleanup_treats_a_missing_rollout_as_deleted_after_server_error() {
    let remaining: Vec<String> = Vec::new();
    let mut deleted = Vec::new();
    let mut failed = Vec::new();

    classify_cleanup_attempt(
        item("missing-thread"),
        Some("app-server thread/delete error: no rollout found".into()),
        &remaining,
        CleanupScope::Archived,
        &mut deleted,
        &mut failed,
    );

    assert_eq!(deleted.len(), 1);
    assert_eq!(deleted[0].thread_id, "missing-thread");
    assert!(deleted[0].message.contains("已按删除完成处理"));
    assert!(failed.is_empty());
}

#[test]
fn remaining_session_is_a_failure_with_the_server_error() {
    let remaining = vec!["kept".to_string()];
    let mut deleted = Vec::new();
    let mut failed = Vec::new();
    classify_cleanup_attempt(
        item("kept"),
        Some("boom".into()),
        &remaining,
        CleanupScope::InvalidChild,
        &mut deleted,
        &mut failed,
    );
    assert!(deleted.is_empty());
    assert_eq!(failed.len(), 1);
    assert_eq!(failed[0].message, "boom");

    classify_cleanup_attempt(
        item("kept"),
        None,
        &remaining,
        CleanupScope::Archived,
        &mut deleted,
        &mut failed,
    );
    assert_eq!(failed.len(), 2);
    assert_eq!(failed[1].message, "Codex 返回删除成功，但本地归档文件仍然存在");
}

#[test]
fn deleted_without_error_uses_the_plain_message() {
    let remaining: Vec<String> = Vec::new();
    let mut deleted = Vec::new();
    let mut failed = Vec::new();
    classify_cleanup_attempt(
        item("gone"),
        None,
        &remaining,
        CleanupScope::InvalidChild,
        &mut deleted,
        &mut failed,
    );
    assert_eq!(deleted[0].message, "已永久删除子会话");
}

#[test]
fn official_provider_is_matched_without_case() {
    assert!(is_official_provider("openai"));
    assert!(is_official_provider("OpenAI"));
    assert!(!is_official_provider("relay"));
}

#[test]
fn archiving_either_side_disconnects_the_pair() {
    let mapping = |id: &str, deleted: bool| ReplicaMapping {
        id: id.into(),
        profile_id: "p".into(),
        source_thread_id: format!("{id}-src"),
        source_provider_id: "openai".into(),
        target_provider_id: "relay".into(),
        replica_thread_id: format!("{id}-rep"),
        source_sha256: String::new(),
        replica_sha256: String::new(),
        status: "verified".into(),
        created_at: String::new(),
        verified_at: None,
        deleted_at: if deleted { Some("then".into()) } else { None },
    };
    let snap = |id: &str, archived: bool| ThreadSnapshot {
        thread_id: id.into(),
        title: id.into(),
        cwd: None,
        provider_id: None,
        updated_at: None,
        archived,
        size_bytes: 0,
        content_sha256: String::new(),
        raw_sha256: String::new(),
        source_kind: ThreadSourceKind::Cli,
        agent_nickname: None,
        parent_thread_id: None,
        rollout_path: String::new(),
        normalized_lines: Vec::new(),
    };
    let mappings = vec![mapping("a", false), mapping("b", false), mapping("c", true), mapping("d", false)];
    let snapshots = vec![snap("a-src", true), snap("b-rep", true), snap("c-src", true), snap("d-src", false)];
    assert_eq!(archived_pairs(&mappings, &snapshots), vec!["a".to_string(), "b".to_string()]);
}

#[test]
fn orphan_cleanup_takes_only_orphans_not_yet_deleted() {
    let mapping = |id: &str, status: &str, deleted: bool| ReplicaMapping {
        id: id.into(),
        profile_id: "p".into(),
        source_thread_id: format!("{id}-src"),
        source_provider_id: "openai".into(),
        target_provider_id: "relay".into(),
        replica_thread_id: format!("{id}-rep"),
        source_sha256: String::new(),
        replica_sha256: String::new(),
        status: status.into(),
        created_at: String::new(),
        verified_at: None,
        deleted_at: if deleted { Some("then".into()) } else { None },
    };
    let all = vec![
        mapping("a", "orphaned", false),
        mapping("b", "verified", false),
        mapping("c", "orphaned", true),
        mapping("d", "orphaned", false),
        mapping("e", "Orphaned", false),
    ];
    let ids: Vec<String> = codex_local_sync::replication::orphan_mappings(&all).into_iter().map(|m| m.id).collect();
    assert_eq!(ids, vec!["a".to_string(), "d".to_string()]);
}

#[test]
fn update_sync_takes_live_verified_pairs_of_the_provider() {
    let mapping = |id: &str, provider: &str, status: &str, deleted: bool| ReplicaMapping {
        id: id.into(),
        profile_id: "p".into(),
        source_thread_id: format!("{id}-src"),
        source_provider_id: "openai".into(),
        target_provider_id: provider.into(),
        replica_thread_id: format!("{id}-rep"),
        source_sha256: String::new(),
        replica_sha256: String::new(),
        status: status.into(),
        created_at: String::new(),
        verified_at: None,
        deleted_at: if deleted { Some("then".into()) } else { None },
    };
    let all = vec![
        mapping("a", "relay", "verified", false),
        mapping("b", "other", "verified", false),
        mapping("c", "relay", "orphaned", false),
        mapping("d", "relay", "verified", true),
        mapping("e", "relay", "verified", false),
    ];
    let ids: Vec<String> =
        codex_local_sync::replication::live_pairs_of(&all, "relay").into_iter().map(|m| m.id).collect();
    assert_eq!(ids, vec!["a".to_string(), "e".to_string()]);
}

#[test]
fn a_cleanup_without_sessions_in_scope_answers_without_protecting_the_home() {
    match cleanup_step(
        "custom",
        CleanupScope::Archived,
        CleanupPhase::Begin { available: vec![item("a")], thread_ids: vec!["x".into(), "x".into()] },
    ) {
        CleanupStep::Answer { failed } => {
            assert_eq!(failed.len(), 1);
            assert_eq!(failed[0].message, "会话已不在当前供应商的归档列表中");
        }
        _ => panic!("nothing in scope is answered at once"),
    }
    let candidates = match cleanup_step(
        "custom",
        CleanupScope::Archived,
        CleanupPhase::Begin { available: vec![item("a"), item("b")], thread_ids: vec!["a".into(), "b".into()] },
    ) {
        CleanupStep::Protect { candidates, failed } => {
            assert!(failed.is_empty());
            candidates
        }
        _ => panic!("the home is protected first"),
    };
    let archived = |id: &str| ThreadSnapshot {
        thread_id: id.into(),
        title: id.into(),
        cwd: None,
        provider_id: Some("custom".into()),
        updated_at: None,
        archived: true,
        size_bytes: 1,
        content_sha256: String::new(),
        raw_sha256: String::new(),
        source_kind: ThreadSourceKind::Cli,
        agent_nickname: None,
        parent_thread_id: None,
        rollout_path: String::new(),
        normalized_lines: Vec::new(),
    };
    match cleanup_step(
        "custom",
        CleanupScope::Archived,
        CleanupPhase::Protected { candidates: candidates.clone(), failed: vec![], rescanned: vec![archived("b")] },
    ) {
        CleanupStep::Delete { confirmed, failed } => {
            assert_eq!(confirmed.len(), 1);
            assert_eq!(confirmed[0].thread_id, "b");
            assert_eq!(failed.len(), 1);
            assert_eq!(failed[0].thread_id, "a");
        }
        _ => panic!("the session still there is deleted"),
    }
    assert!(matches!(
        cleanup_step("custom", CleanupScope::Archived, CleanupPhase::Protected { candidates, failed: vec![], rescanned: vec![] }),
        CleanupStep::Release { .. }
    ));
}
