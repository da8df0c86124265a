use codex_local_sync::error::AppError;
use codex_local_sync::models::{
    ArchiveCleanupItem, ReplicaMapping, ReplicationAction, ReplicationPlanItem, ThreadSourceKind,
    UpdateSyncAction, UpdateSyncPlanItem,
};
use codex_local_sync::operations::{
    assert_current_provider, check_listed_replica, check_read_replica, check_replica_rollout,
    check_source_unchanged, cleanup_outcome, config_provider, cross_check_app_server_provider,
    current_provider, finalize_migration_step, joined_warning, migrated_item, replicate_step,
    replication_item_step, sync_update_step, title_warning, unconfirmed_cleanup, ExecuteItemAction,
    ListedThread, MigrationAction, MigrationPhase, ReplicaAction, ReplicaPhase, UpdateItemAction,
    UpdateItemPhase,
};
use codex_local_sync::sessions::ThreadSnapshot;

fn snap(id: &str, provider: &str, raw: &str, content: &str) -> ThreadSnapshot {
    ThreadSnapshot {
        thread_id: id.into(),
        title: format!("title-{id}"),
        cwd: Some("/p".into()),
        provider_id: Some(provider.into()),
        updated_at: None,
        archived: false,
        size_bytes: 1,
        content_sha256: content.into(),
        raw_sha256: raw.into(),
        source_kind: ThreadSourceKind::Cli,
        agent_nickname: None,
        parent_thread_id: None,
        rollout_path: format!("/r/{id}"),
        normalized_lines: Vec::new(),
    }
}

fn mapping(id: &str) -> ReplicaMapping {
    ReplicaMapping {
        id: id.into(),
        profile_id: "p".into(),
        source_thread_id: "src".into(),
        source_provider_id: "openai".into(),
        target_provider_id: "relay".into(),
        replica_thread_id: "rep".into(),
        source_sha256: "s0".into(),
        replica_sha256: "r0".into(),
        status: "verified".into(),
        created_at: String::new(),
        verified_at: None,
        deleted_at: None,
    }
}

fn plan(action: UpdateSyncAction) -> UpdateSyncPlanItem {
    UpdateSyncPlanItem {
        mapping_id: "m".into(),
        source_thread_id: "src".into(),
        replica_thread_id: "rep".into(),
        title: "t".into(),
        source_provider_id: "openai".into(),
        target_provider_id: "relay".into(),
        action,
        reason: "why".into(),
    }
}

#[test]
fn provider_checks() {
    assert!(current_provider("  ").is_err());
    assert_eq!(current_provider("relay").unwrap(), "relay");
    assert!(assert_current_provider("relay", "relay").is_ok());
    assert_eq!(
        assert_current_provider("openai", "relay").unwrap_err().message(),
        "current Provider changed from relay to openai; rescan before retrying"
    );
    assert_eq!(
        config_provider(&vec![None, Some("relay".into()), Some("x".into())]).as_deref(),
        Some("relay")
    );
    assert_eq!(config_provider(&vec![Some(" ".into()), Some("x".into())]), None);
    assert!(cross_check_app_server_provider(&None, "relay").is_ok());
    assert_eq!(
        cross_check_app_server_provider(&Some("openai".into()), "relay").unwrap_err().message(),
        "config.toml Provider is relay, but App Server reports openai"
    );
}

#[test]
fn cleanup_is_judged_by_the_rescan() {
    assert!(cleanup_outcome(Some(AppError::Message("e".into())), Ok(false)).is_ok());
    assert_eq!(
        cleanup_outcome(Some(AppError::Message("e".into())), Ok(true)),
        Err(AppError::Message("e".into()))
    );
    assert_eq!(
        cleanup_outcome(None, Ok(true)).unwrap_err().message(),
        "thread/delete returned success but the replica rollout still exists"
    );
    assert_eq!(
        cleanup_outcome(None, Err(AppError::Message("scan".into()))),
        Err(AppError::Message("scan".into()))
    );
}

#[test]
fn warnings_are_joined() {
    assert_eq!(joined_warning(&Vec::new()), None);
    assert_eq!(
        joined_warning(&vec!["a".into(), "b".into()]).as_deref(),
        Some("a；b")
    );
}

#[test]
fn unconfirmed_deletions_fail() {
    let item = ArchiveCleanupItem {
        thread_id: "t".into(),
        title: "T".into(),
        provider_id: "p".into(),
        source_kind: ThreadSourceKind::Cli,
        updated_at: None,
        size_bytes: 0,
    };
    let mut failed = Vec::new();
    unconfirmed_cleanup(&vec![(item.clone(), Some("boom".into())), (item, None)], &mut failed);
    assert_eq!(failed.len(), 2);
    assert_eq!(failed[0].message, "boom；删除后无法重新扫描确认结果");
    assert_eq!(failed[1].message, "Codex 已接受删除请求，但无法重新扫描确认结果");
}

#[test]
fn update_sync_item_walks_through_its_steps() {
    let mappings = vec![mapping("m")];
    let snapshots = vec![snap("src", "openai", "s1", "c1"), snap("rep", "relay", "r0", "c0")];
    let item = plan(UpdateSyncAction::SourceUpdated);
    match sync_update_step(&item, &mappings, &snapshots, UpdateItemPhase::Begin) {
        UpdateItemAction::CheckHashes { source_path, replica_sha256, .. } => {
            assert_eq!(source_path, "/r/src");
            assert_eq!(replica_sha256, "r0");
        }
        _ => panic!("expected a hash check"),
    }
    match sync_update_step(&item, &mappings, &snapshots, UpdateItemPhase::Hashed { unchanged: true }) {
        UpdateItemAction::Rewrite { from_path, to_path, thread_id, provider_id } => {
            assert_eq!(from_path, "/r/src");
            assert_eq!(to_path, "/r/rep");
            assert_eq!(thread_id, "rep");
            assert_eq!(provider_id, "relay");
        }
        _ => panic!("expected a rewrite"),
    }
    match sync_update_step(&item, &mappings, &snapshots, UpdateItemPhase::Hashed { unchanged: false }) {
        UpdateItemAction::Fail(f) => assert_eq!(f.message, "会话在同步前发生变化"),
        _ => panic!("expected a failure"),
    }
    let reread = UpdateItemPhase::Reread {
        source: Some(snap("src", "openai", "s2", "c1")),
        replica: Some(snap("rep", "relay", "r2", "c1")),
    };
    match sync_update_step(&item, &mappings, &snapshots, reread) {
        UpdateItemAction::RecordHashes { mapping_id, source_sha256, replica_sha256 } => {
            assert_eq!(mapping_id, "m");
            assert_eq!(source_sha256, "s2");
            assert_eq!(replica_sha256, "r2");
        }
        _ => panic!("expected the hashes to be recorded"),
    }
    let wrong = UpdateItemPhase::Reread {
        source: Some(snap("src", "openai", "s2", "c1")),
        replica: Some(snap("rep", "openai", "r2", "c1")),
    };
    match sync_update_step(&item, &mappings, &snapshots, wrong) {
        UpdateItemAction::Fail(f) => assert_eq!(f.message, "更新后的会话内容或供应商验证失败"),
        _ => panic!("expected a failure"),
    }
    match sync_update_step(&item, &mappings, &snapshots, UpdateItemPhase::Recorded { error: None }) {
        UpdateItemAction::Done { result, updated_thread_id } => {
            assert_eq!(result.status, "synchronized");
            assert_eq!(result.title, "title-src");
            assert_eq!(updated_thread_id, "rep");
        }
        _ => panic!("expected the item to be done"),
    }
    match sync_update_step(&plan(UpdateSyncAction::Conflict), &mappings, &snapshots, UpdateItemPhase::Begin) {
        UpdateItemAction::Skip(s) => assert_eq!(s.status, "conflict"),
        _ => panic!("expected a skip"),
    }
    match sync_update_step(&item, &Vec::new(), &snapshots, UpdateItemPhase::Begin) {
        UpdateItemAction::Fail(f) => assert_eq!(f.message, "复制映射在执行前消失"),
        _ => panic!("expected a failure"),
    }
}

#[test]
fn replica_creation_steps() {
    let source = snap("src", "openai", "s1", "c1");
    match replicate_step(&source, "relay", ReplicaPhase::Begin) {
        ReplicaAction::Fork { thread_id } => assert_eq!(thread_id, "src"),
        _ => panic!("expected a fork"),
    }
    match replicate_step(&source, "relay", ReplicaPhase::Forked { result: Ok("src".into()) }) {
        ReplicaAction::Failed(f) => {
            assert_eq!(f.message, "thread/fork returned the source Thread ID");
            assert_eq!(f.status, "failed_cleaned");
        }
        _ => panic!("expected a failure"),
    }
    let located = ReplicaPhase::Located {
        replica_thread_id: "rep".into(),
        result: Ok(snap("rep", "openai", "r", "c")),
    };
    match replicate_step(&source, "relay", located) {
        ReplicaAction::RewriteProvider { rollout_path, provider_id, .. } => {
            assert_eq!(rollout_path, "/r/rep");
            assert_eq!(provider_id, "relay");
        }
        _ => panic!("expected a rewrite"),
    }
    match replicate_step(
        &source,
        "relay",
        ReplicaPhase::ProviderRewritten { replica_thread_id: "rep".into(), error: None },
    ) {
        ReplicaAction::SetTitle { title, .. } => assert_eq!(title, "title-src"),
        _ => panic!("expected the title"),
    }
    match replicate_step(
        &source,
        "relay",
        ReplicaPhase::Titled { replica_thread_id: "rep".into(), error: Some("x".into()) },
    ) {
        ReplicaAction::Verify { warning, .. } => {
            assert_eq!(warning.as_deref(), Some("title-src：标题未能恢复（x）"))
        }
        _ => panic!("expected a verification"),
    }
    match replicate_step(
        &source,
        "relay",
        ReplicaPhase::CleanedUp {
            replica_thread_id: "rep".into(),
            message: "bad".into(),
            cleanup: Err(AppError::Message("gone".into())),
        },
    ) {
        ReplicaAction::Failed(f) => {
            assert_eq!(f.message, "bad；副本未清理：gone");
            assert_eq!(f.status, "orphaned");
        }
        _ => panic!("expected a failure"),
    }
    let mut stored = mapping("m");
    stored.source_thread_id = "src".into();
    stored.replica_thread_id = "rep".into();
    match replicate_step(
        &source,
        "relay",
        ReplicaPhase::Listed { replica_thread_id: "rep".into(), warning: None, result: Ok(vec![stored]) },
    ) {
        ReplicaAction::Done { result, mapping, .. } => {
            assert_eq!(result.status, "verified");
            assert_eq!(mapping.id, "m");
        }
        _ => panic!("expected the replica to be done"),
    }
    match replicate_step(
        &source,
        "relay",
        ReplicaPhase::Listed { replica_thread_id: "rep".into(), warning: None, result: Ok(Vec::new()) },
    ) {
        ReplicaAction::CleanUp { message, save_orphan, .. } => {
            assert_eq!(message, "映射校验失败：刚创建的迁移关系无法读取");
            assert!(!save_orphan);
        }
        _ => panic!("expected a cleanup"),
    }
    assert_eq!(title_warning("T", "e"), "T：标题未能恢复（e）");
}

#[test]
fn replica_checks() {
    let listed = vec![
        ListedThread { id: Some("a".into()), provider: None },
        ListedThread { id: Some("rep".into()), provider: Some("openai".into()) },
    ];
    assert_eq!(
        check_listed_replica(&listed, "rep", "relay").unwrap_err().message(),
        "replica Provider is openai, expected relay"
    );
    assert!(check_listed_replica(&listed, "a", "relay").is_ok());
    assert!(check_listed_replica(&listed, "zzz", "relay").is_err());
    assert!(check_read_replica(&None, &Some("rep".into()), "rep").is_ok());
    assert!(check_read_replica(&Some("x".into()), &None, "rep").is_err());
    let source = snap("src", "openai", "s1", "c1");
    assert!(check_replica_rollout(&snap("rep", "relay", "r", "c"), &source, "relay").is_ok());
    assert!(check_replica_rollout(&snap("rep", "openai", "r", "c"), &source, "relay").is_err());
    assert!(check_source_unchanged("s1", &source).is_ok());
    assert!(check_source_unchanged("s2", &source).is_err());
}

#[test]
fn replication_items_and_migration() {
    let item = ReplicationPlanItem {
        thread_id: "src".into(),
        title: "T".into(),
        source_provider_id: "openai".into(),
        action: ReplicationAction::CreateReplica,
        reason: "r".into(),
        source_sha256: "s1".into(),
        replica_thread_id: None,
        size_bytes: 1,
    };
    let snapshots = vec![snap("src", "openai", "s1", "c1")];
    match replication_item_step(&item, &snapshots, None) {
        ExecuteItemAction::HashSource { rollout_path } => assert_eq!(rollout_path, "/r/src"),
        _ => panic!("expected a hash"),
    }
    match replication_item_step(&item, &snapshots, Some("s1".into())) {
        ExecuteItemAction::Replicate { source_index } => assert_eq!(source_index, 0),
        _ => panic!("expected a replica"),
    }
    match replication_item_step(&item, &snapshots, Some("zz".into())) {
        ExecuteItemAction::Fail(f) => assert_eq!(f.message, "来源会话在执行前发生变化"),
        _ => panic!("expected a failure"),
    }
    let mut skip = item.clone();
    skip.action = ReplicationAction::SkipArchived;
    match replication_item_step(&skip, &snapshots, None) {
        ExecuteItemAction::Skip(s) => assert_eq!(s.status, "archived"),
        _ => panic!("expected a skip"),
    }

    let source = snap("src", "openai", "s1", "c1");
    let m = mapping("m");
    match finalize_migration_step(&source, &m, MigrationPhase::Begin) {
        MigrationAction::Unmap { mapping_id } => assert_eq!(mapping_id, "m"),
        _ => panic!("expected unmapping"),
    }
    match finalize_migration_step(
        &source,
        &m,
        MigrationPhase::ReplicaDeleted { delete_error: "d".into(), rollback_error: Some("r".into()) },
    ) {
        MigrationAction::Finished { result, save_orphan } => {
            assert_eq!(result.unwrap_err(), "来源会话删除失败：d；目标会话回滚失败，需清理异常副本：r");
            assert!(save_orphan);
        }
        _ => panic!("expected the end"),
    }
    let done = migrated_item(codex_local_sync::models::ReplicaResultItem {
        source_thread_id: "src".into(),
        replica_thread_id: Some("rep".into()),
        title: "T".into(),
        status: "verified".into(),
        message: "x".into(),
    });
    assert_eq!(done.status, "migrated");
}
