//! Provider buckets, restore planning and cleanup decisions over the threads of a Codex home.
use vstd::prelude::*;

use crate::models::{
    ArchiveCleanupItem, ArchiveCleanupResultItem, ReplicaMapping, ReplicationAction,
    ReplicationEligibility, ThreadSourceKind,
};
use crate::sessions::ThreadSnapshot;
use crate::text::{chars_of, clone_opt, concat, contains_text, eq_ignore_case, has_text, lit, lower,
    opt_chars, str_eq, to_text};

verus! {

broadcast use vstd::string::group_string_axioms;

/// Threads started from the CLI or the editor; the others are internal (sub-agents and the like).
pub open spec fn interactive(k: ThreadSourceKind) -> bool {
    k == ThreadSourceKind::Cli || k == ThreadSourceKind::Vscode
}

pub fn is_interactive(source: &ThreadSourceKind) -> (r: bool)
    ensures
        r == interactive(*source),
{
    match source {
        ThreadSourceKind::Cli | ThreadSourceKind::Vscode => true,
        _ => false,
    }
}

/// The official provider is `openai`, in any ASCII case.
pub open spec fn official(id: Seq<char>) -> bool {
    lower(id) == lower("openai"@)
}

pub fn is_official_provider(provider_id: &str) -> (r: bool)
    ensures
        r == official(provider_id@),
{
    eq_ignore_case(&chars_of(provider_id), &lit("openai"))
}

pub open spec fn opt_mapping(m: Option<&ReplicaMapping>) -> Option<ReplicaMapping> {
    match m {
        Some(v) => Some(*v),
        None => None,
    }
}

pub open spec fn verified_status() -> Seq<char> {
    "verified"@
}

pub open spec fn create_reason(current: Seq<char>) -> Seq<char> {
    "将创建新的 Thread ID 并归入 "@ + current
}

/// What restoring a thread into `current` would do, with the reason shown and the replica
/// concerned.
pub open spec fn planned(
    s: ThreadSnapshot,
    current: Seq<char>,
    is_replica: bool,
    mapping: Option<ReplicaMapping>,
) -> (ReplicationAction, Seq<char>, Option<Seq<char>>) {
    if s.archived {
        (ReplicationAction::SkipArchived, "会话已归档"@, None)
    } else if !interactive(s.source_kind) {
        (ReplicationAction::SkipInternal, "仅支持 cli/vscode 主会话"@, None)
    } else if is_replica {
        (ReplicationAction::Invalid, "这是工具已创建的会话副本"@, None)
    } else if s.provider_id is None {
        (ReplicationAction::Invalid, "rollout 缺少 model_provider"@, None)
    } else if s.provider_id->0@ == current {
        (ReplicationAction::SkipCurrentProvider, "会话已经属于当前 Provider"@, None)
    } else if mapping is Some {
        let m = mapping->0;
        if m.status@ == verified_status() && m.source_sha256@ == s.raw_sha256@ {
            (
                ReplicationAction::SkipAlreadyReplicated,
                "已存在经过验证的独立副本"@,
                Some(m.replica_thread_id@),
            )
        } else if m.status@ == verified_status() {
            (
                ReplicationAction::SourceUpdated,
                "来源会话已更新；首版不会覆盖已有副本"@,
                Some(m.replica_thread_id@),
            )
        } else {
            (ReplicationAction::Invalid, "存在尚未清理的复制副本"@, Some(m.replica_thread_id@))
        }
    } else {
        (ReplicationAction::CreateReplica, create_reason(current), None)
    }
}

/// A thread a restore may replicate: active, a main session, no replica itself, and of a
/// provider other than the one in use.
pub open spec fn restorable(s: ThreadSnapshot, current: Seq<char>, is_replica: bool) -> bool {
    &&& !s.archived
    &&& interactive(s.source_kind)
    &&& !is_replica
    &&& s.provider_id is Some
    &&& s.provider_id->0@ != current
}

/// A restore skips a thread as already replicated only where a verified replica of it
/// was made from exactly its current content; a verified replica made from an earlier
/// content is reported as a changed source (and kept), never skipped; a new replica is
/// planned only where the thread has no replica mapping at all.
pub proof fn law_restore_sees_changed_sources(
    s: ThreadSnapshot,
    current: Seq<char>,
    is_replica: bool,
    mapping: Option<ReplicaMapping>,
)
    ensures
        planned(s, current, is_replica, mapping).0 == ReplicationAction::SkipAlreadyReplicated ==> (
        mapping matches Some(m) && m.status@ == verified_status() && m.source_sha256@ == s.raw_sha256@
            && planned(s, current, is_replica, mapping).2 == Some(m.replica_thread_id@)),
        planned(s, current, is_replica, mapping).0 == ReplicationAction::SourceUpdated ==> (
        mapping matches Some(m) && m.status@ == verified_status() && m.source_sha256@ != s.raw_sha256@
            && planned(s, current, is_replica, mapping).2 == Some(m.replica_thread_id@)),
        restorable(s, current, is_replica) && (mapping matches Some(m) && m.status@ == verified_status()
            && m.source_sha256@ != s.raw_sha256@) ==> planned(s, current, is_replica, mapping).0
            == ReplicationAction::SourceUpdated && planned(s, current, is_replica, mapping).1
            == "来源会话已更新；首版不会覆盖已有副本"@,
        restorable(s, current, is_replica) && (mapping matches Some(m) && m.status@ == verified_status()
            && m.source_sha256@ == s.raw_sha256@) ==> planned(s, current, is_replica, mapping).0
            == ReplicationAction::SkipAlreadyReplicated,
        planned(s, current, is_replica, mapping).0 == ReplicationAction::CreateReplica ==> mapping is None
            && restorable(s, current, is_replica),
        restorable(s, current, is_replica) && mapping is None ==> planned(s, current, is_replica, mapping).0
            == ReplicationAction::CreateReplica,
{
}

/// The restore decision for one thread (see [`planned`]).
pub fn plan_action(
    snapshot: &ThreadSnapshot,
    current_provider: &str,
    is_replica: bool,
    mapping: Option<&ReplicaMapping>,
) -> (r: (ReplicationAction, String, Option<String>))
    ensures
        ({
            let p = planned(*snapshot, current_provider@, is_replica, opt_mapping(mapping));
            r.0 == p.0 && r.1@ == p.1 && opt_chars(r.2) == p.2
        }),
{
    if snapshot.archived {
        return (ReplicationAction::SkipArchived, "会话已归档".to_string(), None);
    }
    if !is_interactive(&snapshot.source_kind) {
        return (ReplicationAction::SkipInternal, "仅支持 cli/vscode 主会话".to_string(), None);
    }
    if is_replica {
        return (ReplicationAction::Invalid, "这是工具已创建的会话副本".to_string(), None);
    }
    let provider = match &snapshot.provider_id {
        Some(p) => p,
        None => {
            return (ReplicationAction::Invalid, "rollout 缺少 model_provider".to_string(), None);
        },
    };
    if str_eq(provider.as_str(), current_provider) {
        return (
            ReplicationAction::SkipCurrentProvider,
            "会话已经属于当前 Provider".to_string(),
            None,
        );
    }
    if let Some(m) = mapping {
        let verified = str_eq(m.status.as_str(), "verified");
        if verified && m.source_sha256 == snapshot.raw_sha256 {
            return (
                ReplicationAction::SkipAlreadyReplicated,
                "已存在经过验证的独立副本".to_string(),
                Some(m.replica_thread_id.clone()),
            );
        }
        if verified {
            return (
                ReplicationAction::SourceUpdated,
                "来源会话已更新；首版不会覆盖已有副本".to_string(),
                Some(m.replica_thread_id.clone()),
            );
        }
        return (
            ReplicationAction::Invalid,
            "存在尚未清理的复制副本".to_string(),
            Some(m.replica_thread_id.clone()),
        );
    }
    let reason = to_text(&concat(&lit("将创建新的 Thread ID 并归入 "), &chars_of(current_provider)));
    (ReplicationAction::CreateReplica, reason, None)
}

pub open spec fn replica_status_reason(status: Seq<char>) -> Seq<char> {
    "这是状态为 "@ + status + " 的复制副本，需先清理"@
}

/// How a thread is offered for restoring: replicas made by this tool are labelled as such,
/// every other thread by its restore decision.
pub open spec fn eligibility_of(
    s: ThreadSnapshot,
    current: Seq<char>,
    replica_mapping: Option<ReplicaMapping>,
    mapping: Option<ReplicaMapping>,
) -> (ReplicationEligibility, Seq<char>, Option<Seq<char>>) {
    let replica_id = match replica_mapping {
        Some(m) => Some(m.replica_thread_id@),
        None => None,
    };
    if s.archived {
        (ReplicationEligibility::Archived, "会话已归档"@, replica_id)
    } else if !interactive(s.source_kind) {
        (ReplicationEligibility::InternalThread, "仅支持 cli/vscode 主会话"@, replica_id)
    } else if replica_mapping is Some {
        let m = replica_mapping->0;
        if m.status@ == verified_status() {
            if m.replica_sha256@ == s.raw_sha256@ {
                (
                    ReplicationEligibility::Replica,
                    "这是工具创建并验证过的独立会话副本"@,
                    Some(s.thread_id@),
                )
            } else {
                (
                    ReplicationEligibility::ReplicaUpdated,
                    "被复制的副本又产生了新内容"@,
                    Some(s.thread_id@),
                )
            }
        } else {
            (
                ReplicationEligibility::InvalidRollout,
                replica_status_reason(m.status@),
                Some(s.thread_id@),
            )
        }
    } else {
        let p = planned(s, current, false, mapping);
        (eligibility_for(p.0), p.1, p.2)
    }
}

pub open spec fn eligibility_for(a: ReplicationAction) -> ReplicationEligibility {
    match a {
        ReplicationAction::CreateReplica => ReplicationEligibility::Eligible,
        ReplicationAction::SkipAlreadyReplicated => ReplicationEligibility::AlreadyReplicated,
        ReplicationAction::SourceUpdated => ReplicationEligibility::SourceUpdated,
        ReplicationAction::SkipCurrentProvider => ReplicationEligibility::CurrentProvider,
        ReplicationAction::SkipArchived => ReplicationEligibility::Archived,
        ReplicationAction::SkipInternal => ReplicationEligibility::InternalThread,
        ReplicationAction::Invalid => ReplicationEligibility::InvalidRollout,
    }
}

/// How a thread is offered for restoring (see [`eligibility_of`]).
pub fn eligibility(
    snapshot: &ThreadSnapshot,
    current_provider: &str,
    replica_mapping: Option<&ReplicaMapping>,
    mapping: Option<&ReplicaMapping>,
) -> (r: (ReplicationEligibility, String, Option<String>))
    ensures
        ({
            let e = eligibility_of(
                *snapshot,
                current_provider@,
                opt_mapping(replica_mapping),
                opt_mapping(mapping),
            );
            r.0 == e.0 && r.1@ == e.1 && opt_chars(r.2) == e.2
        }),
{
    let replica_id = match replica_mapping {
        Some(m) => Some(m.replica_thread_id.clone()),
        None => None,
    };
    if snapshot.archived {
        return (ReplicationEligibility::Archived, "会话已归档".to_string(), replica_id);
    }
    if !is_interactive(&snapshot.source_kind) {
        return (ReplicationEligibility::InternalThread, "仅支持 cli/vscode 主会话".to_string(), replica_id);
    }
    if let Some(m) = replica_mapping {
        if str_eq(m.status.as_str(), "verified") {
            if m.replica_sha256 == snapshot.raw_sha256 {
                return (
                    ReplicationEligibility::Replica,
                    "这是工具创建并验证过的独立会话副本".to_string(),
                    Some(snapshot.thread_id.clone()),
                );
            }
            return (
                ReplicationEligibility::ReplicaUpdated,
                "被复制的副本又产生了新内容".to_string(),
                Some(snapshot.thread_id.clone()),
            );
        }
        let a = concat(&lit("这是状态为 "), &chars_of(m.status.as_str()));
        let reason = to_text(&concat(&a, &lit(" 的复制副本，需先清理")));
        return (ReplicationEligibility::InvalidRollout, reason, Some(snapshot.thread_id.clone()));
    }
    let (action, reason, replica) = plan_action(snapshot, current_provider, false, mapping);
    let e = match action {
        ReplicationAction::CreateReplica => ReplicationEligibility::Eligible,
        ReplicationAction::SkipAlreadyReplicated => ReplicationEligibility::AlreadyReplicated,
        ReplicationAction::SourceUpdated => ReplicationEligibility::SourceUpdated,
        ReplicationAction::SkipCurrentProvider => ReplicationEligibility::CurrentProvider,
        ReplicationAction::SkipArchived => ReplicationEligibility::Archived,
        ReplicationAction::SkipInternal => ReplicationEligibility::InternalThread,
        ReplicationAction::Invalid => ReplicationEligibility::InvalidRollout,
    };
    (e, reason, replica)
}

// ---------------------------------------------------------------------------
// Cleanup
// ---------------------------------------------------------------------------

/// Which sessions a cleanup deletes: archived ones, or active internal (child) ones.
#[derive(Debug, Clone, Copy, PartialEq, Eq, Structural)]
pub enum CleanupScope {
    Archived,
    InvalidChild,
}

pub open spec fn missing_text(scope: CleanupScope) -> Seq<char> {
    match scope {
        CleanupScope::Archived => "会话已不在当前供应商的归档列表中"@,
        CleanupScope::InvalidChild => "会话已不在当前供应商的子会话列表中"@,
    }
}

pub open spec fn deleted_text(scope: CleanupScope, recovered_from_error: bool) -> Seq<char> {
    match (scope, recovered_from_error) {
        (CleanupScope::Archived, true) => "本地归档会话已不存在，已按删除完成处理"@,
        (CleanupScope::Archived, false) => "已永久删除归档会话"@,
        (CleanupScope::InvalidChild, true) => "本地子会话已不存在，已按删除完成处理"@,
        (CleanupScope::InvalidChild, false) => "已永久删除子会话"@,
    }
}

pub open spec fn still_exists_text(scope: CleanupScope) -> Seq<char> {
    match scope {
        CleanupScope::Archived => "Codex 返回删除成功，但本地归档文件仍然存在"@,
        CleanupScope::InvalidChild => "Codex 返回删除成功，但本地子会话文件仍然存在"@,
    }
}

impl CleanupScope {
    /// The message for a selected session that is no longer in the list.
    pub fn missing_message(self) -> (r: String)
        ensures
            r@ == missing_text(self),
    {
        match self {
            CleanupScope::Archived => "会话已不在当前供应商的归档列表中".to_string(),
            CleanupScope::InvalidChild => "会话已不在当前供应商的子会话列表中".to_string(),
        }
    }

    /// The message for a session that is gone after the deletion.
    pub fn deleted_message(self, recovered_from_error: bool) -> (r: String)
        ensures
            r@ == deleted_text(self, recovered_from_error),
    {
        match (self, recovered_from_error) {
            (CleanupScope::Archived, true) => "本地归档会话已不存在，已按删除完成处理".to_string(),
            (CleanupScope::Archived, false) => "已永久删除归档会话".to_string(),
            (CleanupScope::InvalidChild, true) => "本地子会话已不存在，已按删除完成处理".to_string(),
            (CleanupScope::InvalidChild, false) => "已永久删除子会话".to_string(),
        }
    }

    /// The message for a session that is still there although the deletion was accepted.
    pub fn still_exists_message(self) -> (r: String)
        ensures
            r@ == still_exists_text(self),
    {
        match self {
            CleanupScope::Archived => "Codex 返回删除成功，但本地归档文件仍然存在".to_string(),
            CleanupScope::InvalidChild => "Codex 返回删除成功，但本地子会话文件仍然存在".to_string(),
        }
    }
}

/// The outcome recorded for one deletion attempt.
pub open spec fn result_item(
    r: ArchiveCleanupResultItem,
    item: ArchiveCleanupItem,
    message: Seq<char>,
) -> bool {
    r.thread_id == item.thread_id && r.title == item.title && r.message@ == message
}

/// Sorts one deletion attempt by what the rescan found: a session that is gone counts as
/// deleted, even when the server reported an error; one that remains has failed, with the
/// server's error or, when there was none, the message that it still exists.
pub fn classify_cleanup_attempt(
    item: ArchiveCleanupItem,
    delete_error: Option<String>,
    remaining: &Vec<String>,
    scope: CleanupScope,
    deleted: &mut Vec<ArchiveCleanupResultItem>,
    failed: &mut Vec<ArchiveCleanupResultItem>,
)
    ensures
        !has_text(remaining@, item.thread_id@) ==> {
            &&& final(deleted)@.len() == old(deleted)@.len() + 1
            &&& final(deleted)@.subrange(0, old(deleted)@.len() as int) == old(deleted)@
            &&& result_item(
                final(deleted)@.last(),
                item,
                deleted_text(scope, delete_error is Some),
            )
            &&& final(failed)@ == old(failed)@
        },
        has_text(remaining@, item.thread_id@) ==> {
            &&& final(failed)@.len() == old(failed)@.len() + 1
            &&& final(failed)@.subrange(0, old(failed)@.len() as int) == old(failed)@
            &&& result_item(
                final(failed)@.last(),
                item,
                match delete_error {
                    Some(e) => e@,
                    None => still_exists_text(scope),
                },
            )
            &&& final(deleted)@ == old(deleted)@
        },
{
    if !contains_text(remaining, &item.thread_id) {
        let message = scope.deleted_message(delete_error.is_some());
        deleted.push(
            ArchiveCleanupResultItem { thread_id: item.thread_id, title: item.title, message },
        );
        assert(deleted@.subrange(0, old(deleted)@.len() as int) =~= old(deleted)@);
        return ;
    }
    let message = match delete_error {
        Some(e) => e,
        None => scope.still_exists_message(),
    };
    failed.push(ArchiveCleanupResultItem { thread_id: item.thread_id, title: item.title, message });
    assert(failed@.subrange(0, old(failed)@.len() as int) =~= old(failed)@);
}

/// The provider a thread counts under: its own, or `unknown`.
pub open spec fn provider_or_unknown(s: ThreadSnapshot) -> Seq<char> {
    match s.provider_id {
        Some(p) => p@,
        None => "unknown"@,
    }
}

pub open spec fn in_scope(s: ThreadSnapshot, scope: CleanupScope) -> bool {
    match scope {
        CleanupScope::Archived => s.archived,
        CleanupScope::InvalidChild => !s.archived && s.source_kind == ThreadSourceKind::Internal,
    }
}

/// The sessions of `provider_id` that a cleanup in `scope` offers.
pub open spec fn cleanup_candidates(
    snapshots: Seq<ThreadSnapshot>,
    provider_id: Seq<char>,
    scope: CleanupScope,
) -> Seq<ThreadSnapshot> {
    snapshots.filter(|s: ThreadSnapshot| in_scope(s, scope) && provider_or_unknown(s) == provider_id)
}

/// The cleanup item listed for a thread.
pub open spec fn item_of(i: ArchiveCleanupItem, s: ThreadSnapshot, provider_id: Seq<char>) -> bool {
    &&& i.thread_id == s.thread_id
    &&& i.title == s.title
    &&& i.provider_id@ == provider_id
    &&& i.source_kind == s.source_kind
    &&& i.updated_at == s.updated_at
    &&& i.size_bytes == s.size_bytes
}

pub fn provider_or_unknown_of(s: &ThreadSnapshot) -> (r: String)
    ensures
        r@ == provider_or_unknown(*s),
{
    match &s.provider_id {
        Some(p) => p.clone(),
        None => "unknown".to_string(),
    }
}

/// The sessions a cleanup offers, in the order of the scan.
pub fn cleanup_items(
    snapshots: &Vec<ThreadSnapshot>,
    provider_id: &str,
    scope: CleanupScope,
) -> (r: Vec<ArchiveCleanupItem>)
    ensures
        r@.len() == cleanup_candidates(snapshots@, provider_id@, scope).len(),
        forall|k: int|
            0 <= k < r@.len() ==> item_of(
                #[trigger] r@[k],
                cleanup_candidates(snapshots@, provider_id@, scope)[k],
                provider_id@,
            ),
{
    let ghost pred = |s: ThreadSnapshot| in_scope(s, scope) && provider_or_unknown(s) == provider_id@;
    let mut out: Vec<ArchiveCleanupItem> = Vec::new();
    let mut i: usize = 0;
    while i < snapshots.len()
        invariant
            i <= snapshots.len(),
            pred == (|s: ThreadSnapshot| in_scope(s, scope) && provider_or_unknown(s) == provider_id@),
            out@.len() == snapshots@.subrange(0, i as int).filter(pred).len(),
            forall|k: int|
                0 <= k < out@.len() ==> item_of(
                    #[trigger] out@[k],
                    snapshots@.subrange(0, i as int).filter(pred)[k],
                    provider_id@,
                ),
        decreases snapshots.len() - i,
    {
        let s = &snapshots[i];
        proof {
            let pre = snapshots@.subrange(0, i as int);
            assert(snapshots@.subrange(0, i + 1) =~= pre.push(*s));
            pre.lemma_filter_push(*s, pred);
        }
        let scoped = match scope {
            CleanupScope::Archived => s.archived,
            CleanupScope::InvalidChild => !s.archived && s.source_kind == ThreadSourceKind::Internal,
        };
        if scoped && str_eq(provider_or_unknown_of(s).as_str(), provider_id) {
            out.push(
                ArchiveCleanupItem {
                    thread_id: s.thread_id.clone(),
                    title: s.title.clone(),
                    provider_id: provider_id.to_string(),
                    source_kind: s.source_kind,
                    updated_at: clone_opt(&s.updated_at),
                    size_bytes: s.size_bytes,
                },
            );
        }
        i = i + 1;
    }
    assert(snapshots@.subrange(0, snapshots@.len() as int) =~= snapshots@);
    out
}

// ---------------------------------------------------------------------------
// Looking threads and mappings up
// ---------------------------------------------------------------------------

/// The last thread with the given id (a map built from the scan keeps the last), or -1.
pub open spec fn snapshot_index(v: Seq<ThreadSnapshot>, id: Seq<char>) -> int
    decreases v.len(),
{
    if v.len() == 0 {
        -1
    } else if v.last().thread_id@ == id {
        v.len() - 1
    } else {
        snapshot_index(v.drop_last(), id)
    }
}

pub proof fn lemma_snapshot_index(v: Seq<ThreadSnapshot>, id: Seq<char>)
    ensures
        -1 <= snapshot_index(v, id) < v.len(),
        snapshot_index(v, id) >= 0 ==> v[snapshot_index(v, id)].thread_id@ == id,
    decreases v.len(),
{
    if v.len() > 0 && v.last().thread_id@ != id {
        lemma_snapshot_index(v.drop_last(), id);
    }
}

/// The position of the last thread with the given id.
pub fn find_snapshot(v: &Vec<ThreadSnapshot>, id: &str) -> (r: Option<usize>)
    ensures
        match r {
            Some(i) => snapshot_index(v@, id@) == i as int && i < v@.len(),
            None => snapshot_index(v@, id@) == -1,
        },
{
    let mut i: usize = v.len();
    assert(v@.subrange(0, v@.len() as int) =~= v@);
    while i > 0
        invariant
            i <= v.len(),
            snapshot_index(v@.subrange(0, i as int), id@) == snapshot_index(v@, id@),
        decreases i,
    {
        proof {
            assert(v@.subrange(0, i as int).drop_last() =~= v@.subrange(0, i - 1));
        }
        if str_eq(v[i - 1].thread_id.as_str(), id) {
            return Some(i - 1);
        }
        i = i - 1;
    }
    assert(v@.subrange(0, v@.len() as int) =~= v@);
    None
}

/// The mapping that a lookup by key finds: the last one passing `keep` whose key is `id`,
/// or -1.
pub open spec fn mapping_index(
    v: Seq<ReplicaMapping>,
    id: Seq<char>,
    by_replica: bool,
    keep: spec_fn(ReplicaMapping) -> bool,
) -> int
    decreases v.len(),
{
    if v.len() == 0 {
        -1
    } else if keep(v.last()) && (if by_replica {
        v.last().replica_thread_id@
    } else {
        v.last().source_thread_id@
    }) == id {
        v.len() - 1
    } else {
        mapping_index(v.drop_last(), id, by_replica, keep)
    }
}

pub open spec fn mapping_at(v: Seq<ReplicaMapping>, i: int) -> Option<ReplicaMapping> {
    if 0 <= i < v.len() {
        Some(v[i])
    } else {
        None
    }
}

/// Not yet marked deleted.
pub open spec fn live() -> spec_fn(ReplicaMapping) -> bool {
    |m: ReplicaMapping| m.deleted_at is None
}

/// Live, and replicating into `target`.
pub open spec fn live_into(target: Seq<char>) -> spec_fn(ReplicaMapping) -> bool {
    |m: ReplicaMapping| m.deleted_at is None && m.target_provider_id@ == target
}

// ---------------------------------------------------------------------------
// Restore preview
// ---------------------------------------------------------------------------

/// The selected ids without repeats, each where it first occurs.
pub open spec fn distinct_ids(ids: Seq<String>) -> Seq<Seq<char>>
    decreases ids.len(),
{
    if ids.len() == 0 {
        seq![]
    } else {
        let d = distinct_ids(ids.drop_last());
        if d.contains(ids.last()@) {
            d
        } else {
            d.push(ids.last()@)
        }
    }
}

pub open spec fn missing_reason() -> Seq<char> {
    "来源会话不存在或 rollout 无效"@
}

/// The restore decision for a selected id.
pub open spec fn planned_for(
    x: Seq<char>,
    target: Seq<char>,
    mappings: Seq<ReplicaMapping>,
    snapshots: Seq<ThreadSnapshot>,
) -> (ReplicationAction, Seq<char>, Option<Seq<char>>) {
    let i = snapshot_index(snapshots, x);
    if i < 0 {
        (ReplicationAction::Invalid, missing_reason(), None)
    } else {
        planned(
            snapshots[i],
            target,
            mapping_index(mappings, x, true, live()) >= 0,
            mapping_at(mappings, mapping_index(mappings, x, false, live_into(target))),
        )
    }
}

/// The plan item for a selected id.
pub open spec fn plan_item_ok(
    item: crate::models::ReplicationPlanItem,
    x: Seq<char>,
    target: Seq<char>,
    mappings: Seq<ReplicaMapping>,
    snapshots: Seq<ThreadSnapshot>,
) -> bool {
    let i = snapshot_index(snapshots, x);
    let p = planned_for(x, target, mappings, snapshots);
    &&& item.action == p.0
    &&& item.reason@ == p.1
    &&& opt_chars(item.replica_thread_id) == p.2
    &&& if i < 0 {
        &&& item.thread_id@ == x
        &&& item.title@ == x
        &&& item.source_provider_id@ == "unknown"@
        &&& item.source_sha256@ == Seq::<char>::empty()
        &&& item.size_bytes == 0
    } else {
        let s = snapshots[i];
        &&& item.thread_id == s.thread_id
        &&& item.title == s.title
        &&& item.source_provider_id@ == provider_or_unknown(s)
        &&& item.source_sha256 == s.raw_sha256
        &&& item.size_bytes == s.size_bytes
    }
}

pub open spec fn is_create(a: ReplicationAction) -> bool {
    a == ReplicationAction::CreateReplica
}

/// The actions counted as invalid in a preview.
pub open spec fn is_invalid_action(a: ReplicationAction) -> bool {
    a == ReplicationAction::Invalid || a == ReplicationAction::SkipArchived || a
        == ReplicationAction::SkipInternal || a == ReplicationAction::SkipCurrentProvider || a
        == ReplicationAction::SourceUpdated
}

pub open spec fn count_items(
    items: Seq<crate::models::ReplicationPlanItem>,
    pred: spec_fn(ReplicationAction) -> bool,
) -> nat
    decreases items.len(),
{
    if items.len() == 0 {
        0
    } else {
        count_items(items.drop_last(), pred) + if pred(items.last().action) {
            1nat
        } else {
            0nat
        }
    }
}

/// The bytes of the threads that would be copied.
pub open spec fn create_bytes(items: Seq<crate::models::ReplicationPlanItem>) -> nat
    decreases items.len(),
{
    if items.len() == 0 {
        0
    } else {
        create_bytes(items.drop_last()) + if is_create(items.last().action) {
            items.last().size_bytes as nat
        } else {
            0nat
        }
    }
}

/// The bytes of the selected thread that would be copied.
pub open spec fn planned_size(
    x: Seq<char>,
    target: Seq<char>,
    mappings: Seq<ReplicaMapping>,
    snapshots: Seq<ThreadSnapshot>,
) -> nat {
    let i = snapshot_index(snapshots, x);
    if i >= 0 && is_create(planned_for(x, target, mappings, snapshots).0) {
        snapshots[i].size_bytes as nat
    } else {
        0
    }
}

/// The bytes a restore of the given ids would copy.
pub open spec fn preview_bytes(
    xs: Seq<Seq<char>>,
    target: Seq<char>,
    mappings: Seq<ReplicaMapping>,
    snapshots: Seq<ThreadSnapshot>,
) -> nat
    decreases xs.len(),
{
    if xs.len() == 0 {
        0
    } else {
        preview_bytes(xs.drop_last(), target, mappings, snapshots) + planned_size(
            xs.last(),
            target,
            mappings,
            snapshots,
        )
    }
}

pub proof fn lemma_preview_bytes_prefix(
    xs: Seq<Seq<char>>,
    n: int,
    target: Seq<char>,
    mappings: Seq<ReplicaMapping>,
    snapshots: Seq<ThreadSnapshot>,
)
    requires
        0 <= n <= xs.len(),
    ensures
        preview_bytes(xs.subrange(0, n), target, mappings, snapshots) <= preview_bytes(
            xs,
            target,
            mappings,
            snapshots,
        ),
    decreases xs.len() - n,
{
    if n < xs.len() {
        lemma_preview_bytes_prefix(xs, n + 1, target, mappings, snapshots);
        assert(xs.subrange(0, n + 1).drop_last() =~= xs.subrange(0, n));
    } else {
        assert(xs.subrange(0, n) =~= xs);
    }
}

pub proof fn lemma_create_bytes_prefix(items: Seq<crate::models::ReplicationPlanItem>, n: int)
    requires
        0 <= n <= items.len(),
    ensures
        create_bytes(items.subrange(0, n)) <= create_bytes(items),
    decreases items.len() - n,
{
    if n < items.len() {
        lemma_create_bytes_prefix(items, n + 1);
        assert(items.subrange(0, n + 1).drop_last() =~= items.subrange(0, n));
    } else {
        assert(items.subrange(0, n) =~= items);
    }
}

/// The plan items for the selected ids, in order, each id once.
pub fn plan_items(
    target_provider: &str,
    mappings: &Vec<ReplicaMapping>,
    snapshots: &Vec<ThreadSnapshot>,
    selected_ids: &Vec<String>,
) -> (r: Vec<crate::models::ReplicationPlanItem>)
    ensures
        r@.len() == distinct_ids(selected_ids@).len(),
        forall|k: int|
            0 <= k < r@.len() ==> plan_item_ok(
                #[trigger] r@[k],
                distinct_ids(selected_ids@)[k],
                target_provider@,
                mappings@,
                snapshots@,
            ),
{
    let mut items: Vec<crate::models::ReplicationPlanItem> = Vec::new();
    let mut seen: Vec<String> = Vec::new();
    let mut n: usize = 0;
    while n < selected_ids.len()
        invariant
            n <= selected_ids.len(),
            seen@.len() == items@.len(),
            distinct_ids(selected_ids@.subrange(0, n as int)).len() == items@.len(),
            forall|k: int|
                0 <= k < seen@.len() ==> (#[trigger] seen@[k])@ == distinct_ids(
                    selected_ids@.subrange(0, n as int),
                )[k],
            forall|k: int|
                0 <= k < items@.len() ==> plan_item_ok(
                    #[trigger] items@[k],
                    distinct_ids(selected_ids@.subrange(0, n as int))[k],
                    target_provider@,
                    mappings@,
                    snapshots@,
                ),
        decreases selected_ids.len() - n,
    {
        let id = &selected_ids[n];
        let ghost d = distinct_ids(selected_ids@.subrange(0, n as int));
        proof {
            assert(selected_ids@.subrange(0, n + 1).drop_last() =~= selected_ids@.subrange(
                0,
                n as int,
            ));
        }
        let dup = contains_text(&seen, id);
        proof {
            if dup {
                let j = choose|j: int| 0 <= j < seen@.len() && (#[trigger] seen@[j])@ == id@;
                assert(d[j] == id@);
                assert(d.contains(id@));
            } else {
                if d.contains(id@) {
                    let j = choose|j: int| 0 <= j < d.len() && d[j] == id@;
                    assert(seen@[j]@ == id@);
                }
            }
        }
        if !dup {
            let item = plan_one(target_provider, mappings, snapshots, id.as_str());
            items.push(item);
            seen.push(id.clone());
            proof {
                let d2 = distinct_ids(selected_ids@.subrange(0, n + 1));
                assert(d2 == d.push(id@));
                assert forall|k: int| 0 <= k < items@.len() implies plan_item_ok(
                    #[trigger] items@[k],
                    d2[k],
                    target_provider@,
                    mappings@,
                    snapshots@,
                ) by {
                    if k < d.len() {
                        assert(d2[k] == d[k]);
                    }
                }
                assert forall|k: int| 0 <= k < seen@.len() implies (#[trigger] seen@[k])@ == d2[k] by {
                    if k < d.len() {
                        assert(d2[k] == d[k]);
                    }
                }
            }
        }
        n = n + 1;
    }
    assert(selected_ids@.subrange(0, selected_ids@.len() as int) =~= selected_ids@);
    items
}

/// The index of the mapping a keyed lookup finds (see [`mapping_index`]).
fn find_mapping(v: &Vec<ReplicaMapping>, id: &str, by_replica: bool, target: Option<&str>) -> (r: Option<usize>)
    ensures
        ({
            let keep = match target {
                Some(t) => live_into(t@),
                None => live(),
            };
            match r {
                Some(i) => mapping_index(v@, id@, by_replica, keep) == i as int && i < v@.len(),
                None => mapping_index(v@, id@, by_replica, keep) == -1,
            }
        }),
{
    let ghost keep = match target {
        Some(t) => live_into(t@),
        None => live(),
    };
    let mut i: usize = v.len();
    assert(v@.subrange(0, v@.len() as int) =~= v@);
    while i > 0
        invariant
            i <= v.len(),
            keep == match target {
                Some(t) => live_into(t@),
                None => live(),
            },
            mapping_index(v@.subrange(0, i as int), id@, by_replica, keep) == mapping_index(
                v@,
                id@,
                by_replica,
                keep,
            ),
        decreases i,
    {
        proof {
            assert(v@.subrange(0, i as int).drop_last() =~= v@.subrange(0, i - 1));
        }
        let m = &v[i - 1];
        let kept = m.deleted_at.is_none() && match target {
            Some(t) => str_eq(m.target_provider_id.as_str(), t),
            None => true,
        };
        let key = if by_replica {
            m.replica_thread_id.as_str()
        } else {
            m.source_thread_id.as_str()
        };
        if kept && str_eq(key, id) {
            return Some(i - 1);
        }
        i = i - 1;
    }
    assert(v@.subrange(0, v@.len() as int) =~= v@);
    None
}

/// The plan item for one selected id.
fn plan_one(
    target_provider: &str,
    mappings: &Vec<ReplicaMapping>,
    snapshots: &Vec<ThreadSnapshot>,
    id: &str,
) -> (r: crate::models::ReplicationPlanItem)
    ensures
        plan_item_ok(r, id@, target_provider@, mappings@, snapshots@),
{
    match find_snapshot(snapshots, id) {
        None => crate::models::ReplicationPlanItem {
            thread_id: id.to_string(),
            title: id.to_string(),
            source_provider_id: "unknown".to_string(),
            action: ReplicationAction::Invalid,
            reason: "来源会话不存在或 rollout 无效".to_string(),
            source_sha256: String::new(),
            replica_thread_id: None,
            size_bytes: 0,
        },
        Some(i) => {
            let s = &snapshots[i];
            let is_replica = find_mapping(mappings, id, true, None).is_some();
            let m = match find_mapping(mappings, id, false, Some(target_provider)) {
                Some(j) => Some(&mappings[j]),
                None => None,
            };
            let (action, reason, replica_thread_id) = plan_action(s, target_provider, is_replica, m);
            crate::models::ReplicationPlanItem {
                thread_id: s.thread_id.clone(),
                title: s.title.clone(),
                source_provider_id: provider_or_unknown_of(s),
                action,
                reason,
                source_sha256: s.raw_sha256.clone(),
                replica_thread_id,
                size_bytes: s.size_bytes,
            }
        },
    }
}

/// The restore preview into `target_provider` for the selected ids: one item per distinct
/// id, and the counts of threads to copy, to skip and that cannot be restored, with the
/// bytes to copy.
pub fn plan_replication(
    profile_id: &str,
    target_provider: &str,
    mappings: &Vec<ReplicaMapping>,
    snapshots: &Vec<ThreadSnapshot>,
    selected_ids: &Vec<String>,
) -> (r: crate::models::ReplicationPreview)
    requires
        preview_bytes(distinct_ids(selected_ids@), target_provider@, mappings@, snapshots@)
            <= u64::MAX,
    ensures
        r.profile_id@ == profile_id@,
        r.target_provider_id@ == target_provider@,
        r.items@.len() == distinct_ids(selected_ids@).len(),
        forall|k: int|
            0 <= k < r.items@.len() ==> plan_item_ok(
                #[trigger] r.items@[k],
                distinct_ids(selected_ids@)[k],
                target_provider@,
                mappings@,
                snapshots@,
            ),
        r.create_count == count_items(r.items@, |a: ReplicationAction| is_create(a)),
        r.invalid_count == count_items(r.items@, |a: ReplicationAction| is_invalid_action(a)),
        r.skip_count == r.items@.len() - r.create_count - r.invalid_count,
        r.estimated_bytes == create_bytes(r.items@),
{
    let items = plan_items(target_provider, mappings, snapshots, selected_ids);
    let ghost xs = distinct_ids(selected_ids@);
    let ghost cp = |a: ReplicationAction| is_create(a);
    let ghost ip = |a: ReplicationAction| is_invalid_action(a);
    let mut create_count: usize = 0;
    let mut invalid_count: usize = 0;
    let mut bytes: u64 = 0;
    let mut k: usize = 0;
    while k < items.len()
        invariant
            k <= items.len(),
            cp == (|a: ReplicationAction| is_create(a)),
            ip == (|a: ReplicationAction| is_invalid_action(a)),
            create_count == count_items(items@.subrange(0, k as int), cp),
            invalid_count == count_items(items@.subrange(0, k as int), ip),
            create_count + invalid_count <= k,
            items@.len() == xs.len(),
            forall|j: int|
                0 <= j < items@.len() ==> plan_item_ok(
                    #[trigger] items@[j],
                    xs[j],
                    target_provider@,
                    mappings@,
                    snapshots@,
                ),
            preview_bytes(xs, target_provider@, mappings@, snapshots@) <= u64::MAX,
            bytes == create_bytes(items@.subrange(0, k as int)),
            create_bytes(items@.subrange(0, k as int)) == preview_bytes(
                xs.subrange(0, k as int),
                target_provider@,
                mappings@,
                snapshots@,
            ),
        decreases items.len() - k,
    {
        proof {
            assert(items@.subrange(0, k + 1).drop_last() =~= items@.subrange(0, k as int));
            assert(xs.subrange(0, k + 1).drop_last() =~= xs.subrange(0, k as int));
            lemma_preview_bytes_prefix(xs, k + 1, target_provider@, mappings@, snapshots@);
            assert(plan_item_ok(items@[k as int], xs[k as int], target_provider@, mappings@, snapshots@));
            lemma_snapshot_index(snapshots@, xs[k as int]);
        }
        let a = items[k].action;
        match a {
            ReplicationAction::CreateReplica => {
                create_count = create_count + 1;
                bytes = bytes + items[k].size_bytes;
            },
            ReplicationAction::Invalid | ReplicationAction::SkipArchived
            | ReplicationAction::SkipInternal | ReplicationAction::SkipCurrentProvider
            | ReplicationAction::SourceUpdated => {
                invalid_count = invalid_count + 1;
            },
            _ => {},
        }
        k = k + 1;
    }
    assert(items@.subrange(0, items@.len() as int) =~= items@);
    let skip_count = items.len() - create_count - invalid_count;
    crate::models::ReplicationPreview {
        profile_id: profile_id.to_string(),
        target_provider_id: target_provider.to_string(),
        items,
        create_count,
        skip_count,
        invalid_count,
        estimated_bytes: bytes,
    }
}

// ---------------------------------------------------------------------------
// Update sync
// ---------------------------------------------------------------------------

pub open spec fn conflict_reason() -> Seq<char> {
    "来源和副本都产生了新内容，无法自动覆盖"@
}

pub open spec fn source_updated_reason() -> Seq<char> {
    "将用来源的最新内容更新现有副本"@
}

pub open spec fn replica_updated_reason() -> Seq<char> {
    "将用副本的最新内容更新现有来源会话"@
}

/// What an update sync would do for a replica pair: nothing when either thread is missing,
/// archived or internal, has moved to another provider, or neither side changed; else
/// copy the changed side over the other, or report a conflict when both changed. The
/// action comes with the title shown and the reason.
pub open spec fn sync_decision(
    m: ReplicaMapping,
    snapshots: Seq<ThreadSnapshot>,
) -> Option<(crate::models::UpdateSyncAction, Seq<char>, Seq<char>)> {
    let si = snapshot_index(snapshots, m.source_thread_id@);
    let ri = snapshot_index(snapshots, m.replica_thread_id@);
    if si < 0 || ri < 0 {
        None
    } else {
        let src = snapshots[si];
        let rep = snapshots[ri];
        if src.archived || rep.archived || !interactive(src.source_kind) || !interactive(
            rep.source_kind,
        ) || opt_chars(src.provider_id) != Some(m.source_provider_id@) || opt_chars(
            rep.provider_id,
        ) != Some(m.target_provider_id@) {
            None
        } else {
            let su = m.source_sha256@ != src.raw_sha256@;
            let ru = m.replica_sha256@ != rep.raw_sha256@;
            if !su && !ru {
                None
            } else if su && ru {
                Some((crate::models::UpdateSyncAction::Conflict, src.title@, conflict_reason()))
            } else if su {
                Some(
                    (
                        crate::models::UpdateSyncAction::SourceUpdated,
                        src.title@,
                        source_updated_reason(),
                    ),
                )
            } else {
                Some(
                    (
                        crate::models::UpdateSyncAction::ReplicaUpdated,
                        rep.title@,
                        replica_updated_reason(),
                    ),
                )
            }
        }
    }
}

/// An update sync reads a pair as conflicting exactly when both the source and the
/// replica changed since the pair was recorded; it overwrites the replica from the source
/// only where the replica is unchanged, and the source from the replica only where the
/// source is unchanged; an unchanged pair is left out.
pub proof fn law_update_sync_never_overwrites_new_content(m: ReplicaMapping, snapshots: Seq<ThreadSnapshot>)
    ensures
        sync_decision(m, snapshots) matches Some(d) ==> {
            let si = snapshot_index(snapshots, m.source_thread_id@);
            let ri = snapshot_index(snapshots, m.replica_thread_id@);
            let source_changed = m.source_sha256@ != snapshots[si].raw_sha256@;
            let replica_changed = m.replica_sha256@ != snapshots[ri].raw_sha256@;
            &&& 0 <= si < snapshots.len() && 0 <= ri < snapshots.len()
            &&& source_changed || replica_changed
            &&& (d.0 == crate::models::UpdateSyncAction::Conflict) == (source_changed && replica_changed)
            &&& (d.0 == crate::models::UpdateSyncAction::SourceUpdated) == (source_changed && !replica_changed)
            &&& (d.0 == crate::models::UpdateSyncAction::ReplicaUpdated) == (!source_changed && replica_changed)
            &&& d.0 == crate::models::UpdateSyncAction::Conflict ==> d.2 == "来源和副本都产生了新内容，无法自动覆盖"@
        },
{
    if sync_decision(m, snapshots) is Some {
        lemma_snapshot_index(snapshots, m.source_thread_id@);
        lemma_snapshot_index(snapshots, m.replica_thread_id@);
    }
}

/// The mappings an update sync has something to do for, in order.
pub open spec fn sync_candidates(
    ms: Seq<ReplicaMapping>,
    snapshots: Seq<ThreadSnapshot>,
) -> Seq<ReplicaMapping> {
    ms.filter(|m: ReplicaMapping| sync_decision(m, snapshots) is Some)
}

pub open spec fn sync_item_ok(
    item: crate::models::UpdateSyncPlanItem,
    m: ReplicaMapping,
    snapshots: Seq<ThreadSnapshot>,
) -> bool {
    let d = sync_decision(m, snapshots)->0;
    &&& sync_decision(m, snapshots) is Some
    &&& item.mapping_id == m.id
    &&& item.source_thread_id == m.source_thread_id
    &&& item.replica_thread_id == m.replica_thread_id
    &&& item.title@ == d.1
    &&& item.source_provider_id == m.source_provider_id
    &&& item.target_provider_id == m.target_provider_id
    &&& item.action == d.0
    &&& item.reason@ == d.2
}

/// A verified replica pair of `target_provider` that is still in use: the pairs an update
/// sync looks at.
pub open spec fn is_live_pair_of(m: ReplicaMapping, target_provider: Seq<char>) -> bool {
    m.target_provider_id@ == target_provider && m.status@ == "verified"@ && m.deleted_at is None
}

/// The mappings an update sync of `target_provider` brings up to date, in order.
pub fn live_pairs_of(ms: &Vec<ReplicaMapping>, target_provider: &str) -> (r: Vec<ReplicaMapping>)
    ensures
        r@ == ms@.filter(|m: ReplicaMapping| is_live_pair_of(m, target_provider@)),
{
    let ghost pred = |m: ReplicaMapping| is_live_pair_of(m, target_provider@);
    let mut out: Vec<ReplicaMapping> = Vec::new();
    let mut i: usize = 0;
    while i < ms.len()
        invariant
            i <= ms@.len(),
            pred == (|m: ReplicaMapping| is_live_pair_of(m, target_provider@)),
            out@ == ms@.subrange(0, i as int).filter(pred),
        decreases ms@.len() - i,
    {
        proof {
            assert(ms@.subrange(0, i + 1) =~= ms@.subrange(0, i as int).push(ms@[i as int]));
            ms@.subrange(0, i as int).lemma_filter_push(ms@[i as int], pred);
            reveal_strlit("verified");
        }
        let m = &ms[i];
        if str_eq(m.target_provider_id.as_str(), target_provider) && str_eq(m.status.as_str(), "verified")
            && m.deleted_at.is_none() {
            out.push(copy_mapping(m));
        }
        i = i + 1;
    }
    assert(ms@.subrange(0, ms@.len() as int) =~= ms@);
    out
}

/// A replica left behind by a failed replication, not yet removed.
pub open spec fn is_orphan(m: ReplicaMapping) -> bool {
    m.status@ == "orphaned"@ && m.deleted_at is None
}

/// The orphaned replicas of a profile that are still to be removed, in order.
pub fn orphan_mappings(ms: &Vec<ReplicaMapping>) -> (r: Vec<ReplicaMapping>)
    ensures
        r@ == ms@.filter(|m: ReplicaMapping| is_orphan(m)),
{
    let ghost pred = |m: ReplicaMapping| is_orphan(m);
    let mut out: Vec<ReplicaMapping> = Vec::new();
    let mut i: usize = 0;
    while i < ms.len()
        invariant
            i <= ms@.len(),
            pred == (|m: ReplicaMapping| is_orphan(m)),
            out@ == ms@.subrange(0, i as int).filter(pred),
        decreases ms@.len() - i,
    {
        proof {
            assert(ms@.subrange(0, i + 1) =~= ms@.subrange(0, i as int).push(ms@[i as int]));
            ms@.subrange(0, i as int).lemma_filter_push(ms@[i as int], pred);
            reveal_strlit("orphaned");
        }
        let m = &ms[i];
        if str_eq(m.status.as_str(), "orphaned") && m.deleted_at.is_none() {
            out.push(copy_mapping(m));
        }
        i = i + 1;
    }
    assert(ms@.subrange(0, ms@.len() as int) =~= ms@);
    out
}

/// A copy of a mapping.
pub fn copy_mapping(m: &ReplicaMapping) -> (r: ReplicaMapping)
    ensures
        r == *m,
{
    ReplicaMapping {
        id: m.id.clone(),
        profile_id: m.profile_id.clone(),
        source_thread_id: m.source_thread_id.clone(),
        source_provider_id: m.source_provider_id.clone(),
        target_provider_id: m.target_provider_id.clone(),
        replica_thread_id: m.replica_thread_id.clone(),
        source_sha256: m.source_sha256.clone(),
        replica_sha256: m.replica_sha256.clone(),
        status: m.status.clone(),
        created_at: m.created_at.clone(),
        verified_at: clone_opt(&m.verified_at),
        deleted_at: clone_opt(&m.deleted_at),
    }
}

fn opt_text_is(o: &Option<String>, s: &String) -> (r: bool)
    ensures
        r == (opt_chars(*o) == Some(s@)),
{
    match o {
        Some(v) => *v == *s,
        None => false,
    }
}

/// The plan item for one mapping, if an update sync has something to do for it.
fn sync_item(m: &ReplicaMapping, snapshots: &Vec<ThreadSnapshot>) -> (r: Option<
    crate::models::UpdateSyncPlanItem,
>)
    ensures
        match r {
            Some(item) => sync_item_ok(item, *m, snapshots@),
            None => sync_decision(*m, snapshots@) is None,
        },
{
    let si = match find_snapshot(snapshots, m.source_thread_id.as_str()) {
        Some(i) => i,
        None => return None,
    };
    let ri = match find_snapshot(snapshots, m.replica_thread_id.as_str()) {
        Some(i) => i,
        None => return None,
    };
    let src = &snapshots[si];
    let rep = &snapshots[ri];
    if src.archived || rep.archived || !is_interactive(&src.source_kind) || !is_interactive(
        &rep.source_kind,
    ) || !opt_text_is(&src.provider_id, &m.source_provider_id) || !opt_text_is(
        &rep.provider_id,
        &m.target_provider_id,
    ) {
        return None;
    }
    let su = m.source_sha256 != src.raw_sha256;
    let ru = m.replica_sha256 != rep.raw_sha256;
    if !su && !ru {
        return None;
    }
    let (action, title, reason) = if su && ru {
        (
            crate::models::UpdateSyncAction::Conflict,
            src.title.clone(),
            "来源和副本都产生了新内容，无法自动覆盖".to_string(),
        )
    } else if su {
        (
            crate::models::UpdateSyncAction::SourceUpdated,
            src.title.clone(),
            "将用来源的最新内容更新现有副本".to_string(),
        )
    } else {
        (
            crate::models::UpdateSyncAction::ReplicaUpdated,
            rep.title.clone(),
            "将用副本的最新内容更新现有来源会话".to_string(),
        )
    };
    Some(
        crate::models::UpdateSyncPlanItem {
            mapping_id: m.id.clone(),
            source_thread_id: m.source_thread_id.clone(),
            replica_thread_id: m.replica_thread_id.clone(),
            title,
            source_provider_id: m.source_provider_id.clone(),
            target_provider_id: m.target_provider_id.clone(),
            action,
            reason,
        },
    )
}

/// The update sync plan: one item per mapping that has something to do, in order.
pub fn update_sync_plan_items(
    mappings: &Vec<ReplicaMapping>,
    snapshots: &Vec<ThreadSnapshot>,
) -> (r: Vec<crate::models::UpdateSyncPlanItem>)
    ensures
        r@.len() == sync_candidates(mappings@, snapshots@).len(),
        forall|k: int|
            0 <= k < r@.len() ==> sync_item_ok(
                #[trigger] r@[k],
                sync_candidates(mappings@, snapshots@)[k],
                snapshots@,
            ),
{
    let ghost pred = |m: ReplicaMapping| sync_decision(m, snapshots@) is Some;
    let mut out: Vec<crate::models::UpdateSyncPlanItem> = Vec::new();
    let mut i: usize = 0;
    while i < mappings.len()
        invariant
            i <= mappings.len(),
            pred == (|m: ReplicaMapping| sync_decision(m, snapshots@) is Some),
            out@.len() == mappings@.subrange(0, i as int).filter(pred).len(),
            forall|k: int|
                0 <= k < out@.len() ==> sync_item_ok(
                    #[trigger] out@[k],
                    mappings@.subrange(0, i as int).filter(pred)[k],
                    snapshots@,
                ),
        decreases mappings.len() - i,
    {
        proof {
            let pre = mappings@.subrange(0, i as int);
            assert(mappings@.subrange(0, i + 1) =~= pre.push(mappings@[i as int]));
            pre.lemma_filter_push(mappings@[i as int], pred);
        }
        match sync_item(&mappings[i], snapshots) {
            Some(item) => {
                out.push(item);
            },
            None => {},
        }
        i = i + 1;
    }
    assert(mappings@.subrange(0, mappings@.len() as int) =~= mappings@);
    out
}

/// The verified, live mappings into `target`: the pairs an update sync looks at.
pub open spec fn sync_mappings(ms: Seq<ReplicaMapping>, target: Seq<char>) -> Seq<ReplicaMapping> {
    ms.filter(
        |m: ReplicaMapping|
            m.target_provider_id@ == target && m.status@ == verified_status() && m.deleted_at is None,
    )
}

pub open spec fn count_sync(
    items: Seq<crate::models::UpdateSyncPlanItem>,
    pred: spec_fn(crate::models::UpdateSyncAction) -> bool,
) -> nat
    decreases items.len(),
{
    if items.len() == 0 {
        0
    } else {
        count_sync(items.drop_last(), pred) + if pred(items.last().action) {
            1nat
        } else {
            0nat
        }
    }
}

pub open spec fn is_update(a: crate::models::UpdateSyncAction) -> bool {
    a == crate::models::UpdateSyncAction::SourceUpdated || a
        == crate::models::UpdateSyncAction::ReplicaUpdated
}

/// The update sync preview into `target_provider`: the plan over the verified, live
/// mappings into it, with the number of updates, conflicts and invalid pairs.
pub fn plan_updates(
    profile_id: &str,
    target_provider: &str,
    mappings: &Vec<ReplicaMapping>,
    snapshots: &Vec<ThreadSnapshot>,
) -> (r: crate::models::UpdateSyncPreview)
    ensures
        r.profile_id@ == profile_id@,
        r.target_provider_id@ == target_provider@,
        r.items@.len() == sync_candidates(sync_mappings(mappings@, target_provider@), snapshots@).len(),
        forall|k: int|
            0 <= k < r.items@.len() ==> sync_item_ok(
                #[trigger] r.items@[k],
                sync_candidates(sync_mappings(mappings@, target_provider@), snapshots@)[k],
                snapshots@,
            ),
        r.update_count == count_sync(
            r.items@,
            |a: crate::models::UpdateSyncAction| is_update(a),
        ),
        r.conflict_count == count_sync(
            r.items@,
            |a: crate::models::UpdateSyncAction| a == crate::models::UpdateSyncAction::Conflict,
        ),
        r.invalid_count == count_sync(
            r.items@,
            |a: crate::models::UpdateSyncAction| a == crate::models::UpdateSyncAction::Invalid,
        ),
{
    let ghost keep = |m: ReplicaMapping|
        m.target_provider_id@ == target_provider@ && m.status@ == verified_status()
            && m.deleted_at is None;
    let mut relevant: Vec<ReplicaMapping> = Vec::new();
    let mut i: usize = 0;
    while i < mappings.len()
        invariant
            i <= mappings.len(),
            keep == (|m: ReplicaMapping|
                m.target_provider_id@ == target_provider@ && m.status@ == verified_status()
                    && m.deleted_at is None),
            relevant@ == mappings@.subrange(0, i as int).filter(keep),
        decreases mappings.len() - i,
    {
        proof {
            let pre = mappings@.subrange(0, i as int);
            assert(mappings@.subrange(0, i + 1) =~= pre.push(mappings@[i as int]));
            pre.lemma_filter_push(mappings@[i as int], keep);
        }
        let m = &mappings[i];
        if str_eq(m.target_provider_id.as_str(), target_provider) && str_eq(
            m.status.as_str(),
            "verified",
        ) && m.deleted_at.is_none() {
            relevant.push(copy_mapping(m));
        }
        i = i + 1;
    }
    assert(mappings@.subrange(0, mappings@.len() as int) =~= mappings@);
    let items = update_sync_plan_items(&relevant, snapshots);
    let ghost up = |a: crate::models::UpdateSyncAction| is_update(a);
    let ghost cp = |a: crate::models::UpdateSyncAction| a == crate::models::UpdateSyncAction::Conflict;
    let ghost ip = |a: crate::models::UpdateSyncAction| a == crate::models::UpdateSyncAction::Invalid;
    let mut update_count: usize = 0;
    let mut conflict_count: usize = 0;
    let mut invalid_count: usize = 0;
    let mut k: usize = 0;
    while k < items.len()
        invariant
            k <= items.len(),
            up == (|a: crate::models::UpdateSyncAction| is_update(a)),
            cp == (|a: crate::models::UpdateSyncAction| a == crate::models::UpdateSyncAction::Conflict),
            ip == (|a: crate::models::UpdateSyncAction| a == crate::models::UpdateSyncAction::Invalid),
            update_count == count_sync(items@.subrange(0, k as int), up),
            conflict_count == count_sync(items@.subrange(0, k as int), cp),
            invalid_count == count_sync(items@.subrange(0, k as int), ip),
            update_count + conflict_count + invalid_count <= k,
        decreases items.len() - k,
    {
        proof {
            assert(items@.subrange(0, k + 1).drop_last() =~= items@.subrange(0, k as int));
        }
        match items[k].action {
            crate::models::UpdateSyncAction::SourceUpdated
            | crate::models::UpdateSyncAction::ReplicaUpdated => {
                update_count = update_count + 1;
            },
            crate::models::UpdateSyncAction::Conflict => {
                conflict_count = conflict_count + 1;
            },
            crate::models::UpdateSyncAction::Invalid => {
                invalid_count = invalid_count + 1;
            },
        }
        k = k + 1;
    }
    assert(items@.subrange(0, items@.len() as int) =~= items@);
    crate::models::UpdateSyncPreview {
        profile_id: profile_id.to_string(),
        target_provider_id: target_provider.to_string(),
        items,
        update_count,
        conflict_count,
        invalid_count,
    }
}

// ---------------------------------------------------------------------------
// Cleanup selection and previews
// ---------------------------------------------------------------------------

pub open spec fn cleanup_bytes(items: Seq<ArchiveCleanupItem>) -> nat
    decreases items.len(),
{
    if items.len() == 0 {
        0
    } else {
        cleanup_bytes(items.drop_last()) + items.last().size_bytes as nat
    }
}

pub open spec fn candidate_bytes(snaps: Seq<ThreadSnapshot>) -> nat
    decreases snaps.len(),
{
    if snaps.len() == 0 {
        0
    } else {
        candidate_bytes(snaps.drop_last()) + snaps.last().size_bytes as nat
    }
}

pub proof fn lemma_cleanup_bytes(items: Seq<ArchiveCleanupItem>, snaps: Seq<ThreadSnapshot>, provider_id: Seq<char>, n: int)
    requires
        items.len() == snaps.len(),
        0 <= n <= items.len(),
        forall|k: int| 0 <= k < items.len() ==> item_of(#[trigger] items[k], snaps[k], provider_id),
    ensures
        cleanup_bytes(items.subrange(0, n)) == candidate_bytes(snaps.subrange(0, n)),
    decreases n,
{
    if n > 0 {
        lemma_cleanup_bytes(items, snaps, provider_id, n - 1);
        assert(items.subrange(0, n).drop_last() =~= items.subrange(0, n - 1));
        assert(snaps.subrange(0, n).drop_last() =~= snaps.subrange(0, n - 1));
        assert(item_of(items[n - 1], snaps[n - 1], provider_id));
    }
}

pub proof fn lemma_candidate_bytes_prefix(snaps: Seq<ThreadSnapshot>, n: int)
    requires
        0 <= n <= snaps.len(),
    ensures
        candidate_bytes(snaps.subrange(0, n)) <= candidate_bytes(snaps),
    decreases snaps.len() - n,
{
    if n < snaps.len() {
        lemma_candidate_bytes_prefix(snaps, n + 1);
        assert(snaps.subrange(0, n + 1).drop_last() =~= snaps.subrange(0, n));
    } else {
        assert(snaps.subrange(0, n) =~= snaps);
    }
}

/// The cleanup preview of `provider_id` in `scope`: the sessions offered, their number and
/// their total size.
pub fn plan_cleanup(
    profile_id: &str,
    provider_id: &str,
    snapshots: &Vec<ThreadSnapshot>,
    scope: CleanupScope,
) -> (r: crate::models::ArchiveCleanupPreview)
    requires
        candidate_bytes(cleanup_candidates(snapshots@, provider_id@, scope)) <= u64::MAX,
    ensures
        r.profile_id@ == profile_id@,
        r.provider_id@ == provider_id@,
        r.items@.len() == cleanup_candidates(snapshots@, provider_id@, scope).len(),
        forall|k: int|
            0 <= k < r.items@.len() ==> item_of(
                #[trigger] r.items@[k],
                cleanup_candidates(snapshots@, provider_id@, scope)[k],
                provider_id@,
            ),
        r.total_count == r.items@.len(),
        r.total_bytes == candidate_bytes(cleanup_candidates(snapshots@, provider_id@, scope)),
{
    let items = cleanup_items(snapshots, provider_id, scope);
    let ghost cands = cleanup_candidates(snapshots@, provider_id@, scope);
    let mut total: u64 = 0;
    let mut k: usize = 0;
    while k < items.len()
        invariant
            k <= items.len(),
            items@.len() == cands.len(),
            forall|j: int| 0 <= j < items@.len() ==> item_of(#[trigger] items@[j], cands[j], provider_id@),
            candidate_bytes(cands) <= u64::MAX,
            total == cleanup_bytes(items@.subrange(0, k as int)),
        decreases items.len() - k,
    {
        proof {
            lemma_cleanup_bytes(items@, cands, provider_id@, k + 1);
            lemma_candidate_bytes_prefix(cands, k + 1);
            assert(items@.subrange(0, k + 1).drop_last() =~= items@.subrange(0, k as int));
        }
        total = total + items[k].size_bytes;
        k = k + 1;
    }
    proof {
        lemma_cleanup_bytes(items@, cands, provider_id@, items@.len() as int);
        assert(items@.subrange(0, items@.len() as int) =~= items@);
        assert(cands.subrange(0, cands.len() as int) =~= cands);
    }
    let count = items.len();
    crate::models::ArchiveCleanupPreview {
        profile_id: profile_id.to_string(),
        provider_id: provider_id.to_string(),
        items,
        total_count: count,
        total_bytes: total,
    }
}

/// The available item with the given id (the last one, as a map built from the list keeps).
pub open spec fn item_index(items: Seq<ArchiveCleanupItem>, id: Seq<char>) -> int
    decreases items.len(),
{
    if items.len() == 0 {
        -1
    } else if items.last().thread_id@ == id {
        items.len() - 1
    } else {
        item_index(items.drop_last(), id)
    }
}

fn find_item(items: &Vec<ArchiveCleanupItem>, id: &str) -> (r: Option<usize>)
    ensures
        match r {
            Some(i) => item_index(items@, id@) == i as int && i < items@.len(),
            None => item_index(items@, id@) == -1,
        },
{
    let mut i: usize = items.len();
    assert(items@.subrange(0, items@.len() as int) =~= items@);
    while i > 0
        invariant
            i <= items.len(),
            item_index(items@.subrange(0, i as int), id@) == item_index(items@, id@),
        decreases i,
    {
        proof {
            assert(items@.subrange(0, i as int).drop_last() =~= items@.subrange(0, i - 1));
        }
        if str_eq(items[i - 1].thread_id.as_str(), id) {
            return Some(i - 1);
        }
        i = i - 1;
    }
    None
}

/// A copy of a cleanup item.
pub fn copy_item(i: &ArchiveCleanupItem) -> (r: ArchiveCleanupItem)
    ensures
        r == *i,
{
    ArchiveCleanupItem {
        thread_id: i.thread_id.clone(),
        title: i.title.clone(),
        provider_id: i.provider_id.clone(),
        source_kind: i.source_kind,
        updated_at: clone_opt(&i.updated_at),
        size_bytes: i.size_bytes,
    }
}

/// The ids a cleanup request names, each once, with the items they find: the available
/// item for an id found, `None` for one that is missing.
pub open spec fn selection(
    available: Seq<ArchiveCleanupItem>,
    ids: Seq<String>,
) -> Seq<(Seq<char>, int)> {
    distinct_ids(ids).map_values(|x: Seq<char>| (x, item_index(available, x)))
}

/// Splits the requested ids into the items to delete (those available, each id once, in
/// the order asked) and the failures for those that are not available.
pub fn select_cleanup(
    available: &Vec<ArchiveCleanupItem>,
    thread_ids: &Vec<String>,
    scope: CleanupScope,
) -> (r: (Vec<ArchiveCleanupItem>, Vec<ArchiveCleanupResultItem>))
    ensures
        ({
            let xs = distinct_ids(thread_ids@);
            let found = xs.filter(|x: Seq<char>| item_index(available@, x) >= 0);
            let missing = xs.filter(|x: Seq<char>| item_index(available@, x) < 0);
            &&& r.0@.len() == found.len()
            &&& forall|k: int|
                0 <= k < r.0@.len() ==> #[trigger] r.0@[k] == available@[item_index(
                    available@,
                    found[k],
                )]
            &&& r.1@.len() == missing.len()
            &&& forall|k: int|
                0 <= k < r.1@.len() ==> (#[trigger] r.1@[k]).thread_id@ == missing[k]
                    && r.1@[k].title@ == missing[k] && r.1@[k].message@ == missing_text(scope)
        }),
{
    let ghost fp = |x: Seq<char>| item_index(available@, x) >= 0;
    let ghost mp = |x: Seq<char>| item_index(available@, x) < 0;
    let mut candidates: Vec<ArchiveCleanupItem> = Vec::new();
    let mut failed: Vec<ArchiveCleanupResultItem> = Vec::new();
    let mut seen: Vec<String> = Vec::new();
    let mut n: usize = 0;
    while n < thread_ids.len()
        invariant
            n <= thread_ids.len(),
            fp == (|x: Seq<char>| item_index(available@, x) >= 0),
            mp == (|x: Seq<char>| item_index(available@, x) < 0),
            seen@.len() == distinct_ids(thread_ids@.subrange(0, n as int)).len(),
            forall|k: int|
                0 <= k < seen@.len() ==> (#[trigger] seen@[k])@ == distinct_ids(
                    thread_ids@.subrange(0, n as int),
                )[k],
            candidates@.len() == distinct_ids(thread_ids@.subrange(0, n as int)).filter(fp).len(),
            forall|k: int|
                0 <= k < candidates@.len() ==> #[trigger] candidates@[k] == available@[item_index(
                    available@,
                    distinct_ids(thread_ids@.subrange(0, n as int)).filter(fp)[k],
                )],
            failed@.len() == distinct_ids(thread_ids@.subrange(0, n as int)).filter(mp).len(),
            forall|k: int|
                0 <= k < failed@.len() ==> (#[trigger] failed@[k]).thread_id@ == distinct_ids(
                    thread_ids@.subrange(0, n as int),
                ).filter(mp)[k] && failed@[k].title@ == distinct_ids(
                    thread_ids@.subrange(0, n as int),
                ).filter(mp)[k] && failed@[k].message@ == missing_text(scope),
        decreases thread_ids.len() - n,
    {
        let id = &thread_ids[n];
        let ghost d = distinct_ids(thread_ids@.subrange(0, n as int));
        proof {
            assert(thread_ids@.subrange(0, n + 1).drop_last() =~= thread_ids@.subrange(
                0,
                n as int,
            ));
        }
        let dup = contains_text(&seen, id);
        proof {
            if dup {
                let j = choose|j: int| 0 <= j < seen@.len() && (#[trigger] seen@[j])@ == id@;
                assert(d[j] == id@);
                assert(d.contains(id@));
            } else {
                if d.contains(id@) {
                    let j = choose|j: int| 0 <= j < d.len() && d[j] == id@;
                    assert(seen@[j]@ == id@);
                }
            }
        }
        if !dup {
            proof {
                d.lemma_filter_push(id@, fp);
                d.lemma_filter_push(id@, mp);
            }
            match find_item(available, id.as_str()) {
                Some(i) => {
                    candidates.push(copy_item(&available[i]));
                },
                None => {
                    failed.push(
                        ArchiveCleanupResultItem {
                            thread_id: id.clone(),
                            title: id.clone(),
                            message: scope.missing_message(),
                        },
                    );
                },
            }
            seen.push(id.clone());
            proof {
                let d2 = distinct_ids(thread_ids@.subrange(0, n + 1));
                assert(d2 == d.push(id@));
                assert forall|k: int| 0 <= k < seen@.len() implies (#[trigger] seen@[k])@ == d2[k] by {
                    if k < d.len() {
                        assert(d2[k] == d[k]);
                    }
                }
            }
        }
        n = n + 1;
    }
    assert(thread_ids@.subrange(0, thread_ids@.len() as int) =~= thread_ids@);
    (candidates, failed)
}

pub open spec fn not_deleted_text(scope: CleanupScope) -> Seq<char> {
    missing_text(scope) + "，未执行删除"@
}

/// Re-checks the candidates against the list scanned once the client is stopped: those
/// still available are kept (as they are now), the others fail without being deleted.
pub fn recheck_cleanup(
    candidates: &Vec<ArchiveCleanupItem>,
    available: &Vec<ArchiveCleanupItem>,
    scope: CleanupScope,
    failed: &mut Vec<ArchiveCleanupResultItem>,
) -> (r: Vec<ArchiveCleanupItem>)
    ensures
        ({
            let kept = candidates@.filter(|c: ArchiveCleanupItem| item_index(available@, c.thread_id@) >= 0);
            let gone = candidates@.filter(|c: ArchiveCleanupItem| item_index(available@, c.thread_id@) < 0);
            &&& r@.len() == kept.len()
            &&& forall|k: int|
                0 <= k < r@.len() ==> #[trigger] r@[k] == available@[item_index(
                    available@,
                    kept[k].thread_id@,
                )]
            &&& final(failed)@.len() == old(failed)@.len() + gone.len()
            &&& final(failed)@.subrange(0, old(failed)@.len() as int) == old(failed)@
            &&& forall|k: int|
                0 <= k < gone.len() ==> result_item(
                    #[trigger] final(failed)@[old(failed)@.len() + k],
                    gone[k],
                    not_deleted_text(scope),
                )
        }),
{
    let ghost kp = |c: ArchiveCleanupItem| item_index(available@, c.thread_id@) >= 0;
    let ghost gp = |c: ArchiveCleanupItem| item_index(available@, c.thread_id@) < 0;
    let ghost base = old(failed)@;
    let mut out: Vec<ArchiveCleanupItem> = Vec::new();
    let mut i: usize = 0;
    while i < candidates.len()
        invariant
            i <= candidates.len(),
            kp == (|c: ArchiveCleanupItem| item_index(available@, c.thread_id@) >= 0),
            gp == (|c: ArchiveCleanupItem| item_index(available@, c.thread_id@) < 0),
            out@.len() == candidates@.subrange(0, i as int).filter(kp).len(),
            forall|k: int|
                0 <= k < out@.len() ==> #[trigger] out@[k] == available@[item_index(
                    available@,
                    candidates@.subrange(0, i as int).filter(kp)[k].thread_id@,
                )],
            failed@.len() == base.len() + candidates@.subrange(0, i as int).filter(gp).len(),
            failed@.subrange(0, base.len() as int) == base,
            forall|k: int|
                0 <= k < candidates@.subrange(0, i as int).filter(gp).len() ==> result_item(
                    #[trigger] failed@[base.len() + k],
                    candidates@.subrange(0, i as int).filter(gp)[k],
                    not_deleted_text(scope),
                ),
        decreases candidates.len() - i,
    {
        proof {
            let pre = candidates@.subrange(0, i as int);
            assert(candidates@.subrange(0, i + 1) =~= pre.push(candidates@[i as int]));
            pre.lemma_filter_push(candidates@[i as int], kp);
            pre.lemma_filter_push(candidates@[i as int], gp);
        }
        let c = &candidates[i];
        match find_item(available, c.thread_id.as_str()) {
            Some(j) => {
                out.push(copy_item(&available[j]));
            },
            None => {
                let ghost before = failed@;
                let message = to_text(&concat(&chars_of(scope.missing_message().as_str()), &lit("，未执行删除")));
                failed.push(
                    ArchiveCleanupResultItem {
                        thread_id: c.thread_id.clone(),
                        title: c.title.clone(),
                        message,
                    },
                );
                proof {
                    assert(failed@.subrange(0, base.len() as int) =~= before.subrange(0, base.len() as int));
                    assert forall|k: int|
                        0 <= k < candidates@.subrange(0, i + 1).filter(gp).len() implies result_item(
                        #[trigger] failed@[base.len() + k],
                        candidates@.subrange(0, i + 1).filter(gp)[k],
                        not_deleted_text(scope),
                    ) by {
                        if k < candidates@.subrange(0, i as int).filter(gp).len() {
                            assert(failed@[base.len() + k] == before[base.len() + k]);
                        }
                    }
                }
            },
        }
        i = i + 1;
    }
    assert(candidates@.subrange(0, candidates@.len() as int) =~= candidates@);
    out
}

// ---------------------------------------------------------------------------
// Result items
// ---------------------------------------------------------------------------

pub open spec fn status_text(a: ReplicationAction) -> Seq<char> {
    match a {
        ReplicationAction::SkipAlreadyReplicated => "already_replicated"@,
        ReplicationAction::SourceUpdated => "source_updated"@,
        ReplicationAction::SkipCurrentProvider => "current_provider"@,
        ReplicationAction::SkipArchived => "archived"@,
        ReplicationAction::SkipInternal => "internal"@,
        ReplicationAction::Invalid => "invalid"@,
        ReplicationAction::CreateReplica => "planned"@,
    }
}

/// The status word recorded for a plan item that is not carried out.
pub fn action_status(action: &ReplicationAction) -> (r: String)
    ensures
        r@ == status_text(*action),
{
    match action {
        ReplicationAction::SkipAlreadyReplicated => "already_replicated".to_string(),
        ReplicationAction::SourceUpdated => "source_updated".to_string(),
        ReplicationAction::SkipCurrentProvider => "current_provider".to_string(),
        ReplicationAction::SkipArchived => "archived".to_string(),
        ReplicationAction::SkipInternal => "internal".to_string(),
        ReplicationAction::Invalid => "invalid".to_string(),
        ReplicationAction::CreateReplica => "planned".to_string(),
    }
}

/// The failure recorded for a plan item.
pub fn failed_item(
    item: &crate::models::ReplicationPlanItem,
    replica_thread_id: Option<String>,
    message: &str,
) -> (r: crate::models::ReplicaResultItem)
    ensures
        r.source_thread_id == item.thread_id,
        r.replica_thread_id == replica_thread_id,
        r.title == item.title,
        r.status@ == "failed"@,
        r.message@ == message@,
{
    crate::models::ReplicaResultItem {
        source_thread_id: item.thread_id.clone(),
        replica_thread_id,
        title: item.title.clone(),
        status: "failed".to_string(),
        message: message.to_string(),
    }
}

/// The failure recorded for an update of a replica pair.
pub fn update_sync_failed_item(item: &crate::models::UpdateSyncPlanItem, message: &str) -> (r:
    crate::models::ReplicaResultItem)
    ensures
        r.source_thread_id == item.source_thread_id,
        r.replica_thread_id == Some(item.replica_thread_id),
        r.title == item.title,
        r.status@ == "failed"@,
        r.message@ == message@,
{
    crate::models::ReplicaResultItem {
        source_thread_id: item.source_thread_id.clone(),
        replica_thread_id: Some(item.replica_thread_id.clone()),
        title: item.title.clone(),
        status: "failed".to_string(),
        message: message.to_string(),
    }
}

/// A replica pair left alone: a conflict, or an invalid pair.
pub fn update_sync_skipped_item(item: &crate::models::UpdateSyncPlanItem) -> (r:
    crate::models::ReplicaResultItem)
    ensures
        r.source_thread_id == item.source_thread_id,
        r.replica_thread_id == Some(item.replica_thread_id),
        r.title == item.title,
        r.status@ == if item.action == crate::models::UpdateSyncAction::Conflict {
            "conflict"@
        } else {
            "invalid"@
        },
        r.message == item.reason,
{
    let status = match item.action {
        crate::models::UpdateSyncAction::Conflict => "conflict".to_string(),
        _ => "invalid".to_string(),
    };
    crate::models::ReplicaResultItem {
        source_thread_id: item.source_thread_id.clone(),
        replica_thread_id: Some(item.replica_thread_id.clone()),
        title: item.title.clone(),
        status,
        message: item.reason.clone(),
    }
}

/// The failure recorded for a thread whose replica could not be finished: `orphaned` when
/// the message says the replica was left behind, `failed_cleaned` otherwise.
pub fn snapshot_failed_item(
    source: &ThreadSnapshot,
    replica_thread_id: Option<String>,
    message: &str,
) -> (r: crate::models::ReplicaResultItem)
    ensures
        r.source_thread_id == source.thread_id,
        r.replica_thread_id == replica_thread_id,
        r.title == source.title,
        r.status@ == if crate::text::contains(message@, "未清理"@) {
            "orphaned"@
        } else {
            "failed_cleaned"@
        },
        r.message@ == message@,
{
    let status = if crate::text::contains_seq(&chars_of(message), &lit("未清理")) {
        "orphaned".to_string()
    } else {
        "failed_cleaned".to_string()
    };
    crate::models::ReplicaResultItem {
        source_thread_id: source.thread_id.clone(),
        replica_thread_id,
        title: source.title.clone(),
        status,
        message: message.to_string(),
    }
}

/// The message for a failure after which the unverified replica was (or could not be)
/// removed.
pub fn cleanup_message(error: &str, cleanup: Result<(), crate::error::AppError>) -> (r: String)
    ensures
        r@ == match cleanup {
            Ok(()) => error@ + "；本次未验证副本已删除"@,
            Err(e) => error@ + "；副本未清理："@ + e.text(),
        },
{
    match cleanup {
        Ok(()) => to_text(&concat(&chars_of(error), &lit("；本次未验证副本已删除"))),
        Err(e) => {
            let a = concat(&chars_of(error), &lit("；副本未清理："));
            to_text(&concat(&a, &chars_of(e.message().as_str())))
        },
    }
}

// ---------------------------------------------------------------------------
// Archived pairs
// ---------------------------------------------------------------------------

/// Some scanned thread with this id is archived.
pub open spec fn archived_id(snapshots: Seq<ThreadSnapshot>, id: Seq<char>) -> bool {
    exists|k: int| 0 <= k < snapshots.len() && (#[trigger] snapshots[k]).archived && snapshots[k].thread_id@ == id
}

/// A live pair one of whose sides is archived: it is disconnected for good.
pub open spec fn to_disconnect(m: ReplicaMapping, snapshots: Seq<ThreadSnapshot>) -> bool {
    m.deleted_at is None && (archived_id(snapshots, m.source_thread_id@) || archived_id(
        snapshots,
        m.replica_thread_id@,
    ))
}

fn is_archived_id(snapshots: &Vec<ThreadSnapshot>, id: &str) -> (r: bool)
    ensures
        r == archived_id(snapshots@, id@),
{
    let mut k: usize = 0;
    while k < snapshots.len()
        invariant
            k <= snapshots@.len(),
            forall|j: int| 0 <= j < k ==> !((#[trigger] snapshots@[j]).archived && snapshots@[j].thread_id@ == id@),
        decreases snapshots@.len() - k,
    {
        if snapshots[k].archived && str_eq(snapshots[k].thread_id.as_str(), id) {
            return true;
        }
        k = k + 1;
    }
    false
}

/// The ids of the mappings to mark deleted, in order: the live pairs with an archived side.
pub fn archived_pairs(mappings: &Vec<ReplicaMapping>, snapshots: &Vec<ThreadSnapshot>) -> (r: Vec<String>)
    ensures
        r@.len() == mappings@.filter(|m: ReplicaMapping| to_disconnect(m, snapshots@)).len(),
        forall|k: int|
            0 <= k < r@.len() ==> #[trigger] r@[k] == mappings@.filter(
                |m: ReplicaMapping| to_disconnect(m, snapshots@),
            )[k].id,
{
    let ghost pred = |m: ReplicaMapping| to_disconnect(m, snapshots@);
    let mut out: Vec<String> = Vec::new();
    let mut i: usize = 0;
    while i < mappings.len()
        invariant
            i <= mappings@.len(),
            pred == (|m: ReplicaMapping| to_disconnect(m, snapshots@)),
            out@.len() == mappings@.subrange(0, i as int).filter(pred).len(),
            forall|k: int| 0 <= k < out@.len() ==> #[trigger] out@[k] == mappings@.subrange(0, i as int).filter(pred)[k].id,
        decreases mappings@.len() - i,
    {
        proof {
            assert(mappings@.subrange(0, i + 1) =~= mappings@.subrange(0, i as int).push(mappings@[i as int]));
            mappings@.subrange(0, i as int).lemma_filter_push(mappings@[i as int], pred);
        }
        let m = &mappings[i];
        if m.deleted_at.is_none() && (is_archived_id(snapshots, m.source_thread_id.as_str())
            || is_archived_id(snapshots, m.replica_thread_id.as_str())) {
            out.push(m.id.clone());
        }
        i = i + 1;
    }
    assert(mappings@.subrange(0, mappings@.len() as int) =~= mappings@);
    out
}

// ---------------------------------------------------------------------------
// Laws
// ---------------------------------------------------------------------------

/// A cleanup offers only sessions of the chosen provider: in the archived scope only archived
/// ones, in the child scope only active internal ones, so that cleaning child sessions
/// never touches a main session.
pub proof fn law_cleanup_scope(snapshots: Seq<ThreadSnapshot>, provider_id: Seq<char>, scope: CleanupScope)
    ensures
        forall|k: int|
            0 <= k < cleanup_candidates(snapshots, provider_id, scope).len() ==> {
                let s = #[trigger] cleanup_candidates(snapshots, provider_id, scope)[k];
                &&& provider_or_unknown(s) == provider_id
                &&& scope == CleanupScope::Archived ==> s.archived
                &&& scope == CleanupScope::InvalidChild ==> !s.archived && !interactive(s.source_kind)
            },
{
    let pred = |s: ThreadSnapshot| in_scope(s, scope) && provider_or_unknown(s) == provider_id;
    assert forall|k: int| 0 <= k < cleanup_candidates(snapshots, provider_id, scope).len() implies {
        let s = #[trigger] cleanup_candidates(snapshots, provider_id, scope)[k];
        &&& provider_or_unknown(s) == provider_id
        &&& scope == CleanupScope::Archived ==> s.archived
        &&& scope == CleanupScope::InvalidChild ==> !s.archived && !interactive(s.source_kind)
    } by {
        snapshots.lemma_filter_pred(pred, k);
    }
}

/// A restore copies only a main thread that exists, is not archived, belongs to another
/// known provider than the target, has no replica pairing yet and is not itself a replica.
pub proof fn law_restore_copies_only_foreign_main_threads(
    x: Seq<char>,
    target: Seq<char>,
    mappings: Seq<ReplicaMapping>,
    snapshots: Seq<ThreadSnapshot>,
)
    requires
        planned_for(x, target, mappings, snapshots).0 == ReplicationAction::CreateReplica,
    ensures
        ({
            let i = snapshot_index(snapshots, x);
            &&& 0 <= i < snapshots.len()
            &&& snapshots[i].thread_id@ == x
            &&& !snapshots[i].archived
            &&& interactive(snapshots[i].source_kind)
            &&& snapshots[i].provider_id is Some
            &&& snapshots[i].provider_id->0@ != target
            &&& mapping_index(mappings, x, true, live()) < 0
            &&& mapping_index(mappings, x, false, live_into(target)) < 0
        }),
{
    lemma_snapshot_index(snapshots, x);
    lemma_mapping_index(mappings, x, false, live_into(target));
}

pub proof fn lemma_mapping_index(
    v: Seq<ReplicaMapping>,
    id: Seq<char>,
    by_replica: bool,
    keep: spec_fn(ReplicaMapping) -> bool,
)
    ensures
        -1 <= mapping_index(v, id, by_replica, keep) < v.len(),
    decreases v.len(),
{
    if v.len() > 0 {
        lemma_mapping_index(v.drop_last(), id, by_replica, keep);
    }
}

pub proof fn lemma_snapshot_index_found(v: Seq<ThreadSnapshot>, id: Seq<char>, k: int)
    requires
        0 <= k < v.len(),
        v[k].thread_id@ == id,
    ensures
        snapshot_index(v, id) >= k,
    decreases v.len(),
{
    if v.last().thread_id@ != id {
        lemma_snapshot_index_found(v.drop_last(), id, k);
    }
}

/// Each thread id occurs once (as in a scan of a home).
pub open spec fn unique_threads(v: Seq<ThreadSnapshot>) -> bool {
    forall|a: int, b: int|
        0 <= a < b < v.len() ==> (#[trigger] v[a]).thread_id@ != (#[trigger] v[b]).thread_id@
}

/// Archiving either side of a replica pair disconnects it for good: a pair with an
/// archived side is one to mark deleted, and an update sync never plans anything for it.
pub proof fn law_archived_pair_is_disconnected(m: ReplicaMapping, snapshots: Seq<ThreadSnapshot>, k: int)
    requires
        unique_threads(snapshots),
        0 <= k < snapshots.len(),
        snapshots[k].archived,
        snapshots[k].thread_id@ == m.source_thread_id@ || snapshots[k].thread_id@ == m.replica_thread_id@,
    ensures
        m.deleted_at is None ==> to_disconnect(m, snapshots),
        sync_decision(m, snapshots) is None,
{
    let id = snapshots[k].thread_id@;
    lemma_snapshot_index_found(snapshots, id, k);
    lemma_snapshot_index(snapshots, id);
    let j = snapshot_index(snapshots, id);
    if j != k {
        assert(snapshots[j].thread_id@ == snapshots[k].thread_id@);
    }
    assert(j == k);
}


// ---------------------------------------------------------------------------
// The steps of a cleanup
// ---------------------------------------------------------------------------

/// `items` are the cleanup items of the threads of `provider_id` in `scope`.
pub open spec fn items_listed(items: Seq<ArchiveCleanupItem>, snapshots: Seq<ThreadSnapshot>, provider_id: Seq<char>, scope: CleanupScope) -> bool {
    &&& items.len() == cleanup_candidates(snapshots, provider_id, scope).len()
    &&& forall|k: int| 0 <= k < items.len() ==> item_of(#[trigger] items[k], cleanup_candidates(snapshots, provider_id, scope)[k], provider_id)
}

/// `candidates` are the available items of the selected ids, once each, and `failed` says
/// of every other selected id that it is not in scope.
pub open spec fn cleanup_selected(
    available: Seq<ArchiveCleanupItem>,
    thread_ids: Seq<String>,
    scope: CleanupScope,
    candidates: Seq<ArchiveCleanupItem>,
    failed: Seq<ArchiveCleanupResultItem>,
) -> bool {
    let xs = distinct_ids(thread_ids);
    let found = xs.filter(|x: Seq<char>| item_index(available, x) >= 0);
    let missing = xs.filter(|x: Seq<char>| item_index(available, x) < 0);
    &&& candidates.len() == found.len()
    &&& forall|k: int| 0 <= k < candidates.len() ==> #[trigger] candidates[k] == available[item_index(available, found[k])]
    &&& failed.len() == missing.len()
    &&& forall|k: int| 0 <= k < failed.len() ==> (#[trigger] failed[k]).thread_id@ == missing[k]
        && failed[k].title@ == missing[k] && failed[k].message@ == missing_text(scope)
}

/// `confirmed` are the candidates still available (as now listed), and `failed` is `before`
/// followed by a failure for each candidate no longer available.
pub open spec fn cleanup_rechecked(
    candidates: Seq<ArchiveCleanupItem>,
    available: Seq<ArchiveCleanupItem>,
    scope: CleanupScope,
    before: Seq<ArchiveCleanupResultItem>,
    confirmed: Seq<ArchiveCleanupItem>,
    failed: Seq<ArchiveCleanupResultItem>,
) -> bool {
    let kept = candidates.filter(|c: ArchiveCleanupItem| item_index(available, c.thread_id@) >= 0);
    let gone = candidates.filter(|c: ArchiveCleanupItem| item_index(available, c.thread_id@) < 0);
    &&& confirmed.len() == kept.len()
    &&& forall|k: int| 0 <= k < confirmed.len() ==> #[trigger] confirmed[k] == available[item_index(available, kept[k].thread_id@)]
    &&& failed.len() == before.len() + gone.len()
    &&& failed.subrange(0, before.len() as int) == before
    &&& forall|k: int| 0 <= k < gone.len() ==> result_item(#[trigger] failed[before.len() + k], gone[k], not_deleted_text(scope))
}

/// The rescan inside the protected window lists `available`, and the candidates are
/// checked against it.
pub open spec fn rechecked_against(
    snapshots: Seq<ThreadSnapshot>,
    provider_id: Seq<char>,
    scope: CleanupScope,
    candidates: Seq<ArchiveCleanupItem>,
    before: Seq<ArchiveCleanupResultItem>,
    confirmed: Seq<ArchiveCleanupItem>,
    failed: Seq<ArchiveCleanupResultItem>,
) -> bool {
    exists|available: Seq<ArchiveCleanupItem>| #[trigger] items_listed(available, snapshots, provider_id, scope)
        && cleanup_rechecked(candidates, available, scope, before, confirmed, failed)
}

/// Where a cleanup stands: the selection against the items first listed, then the home
/// rescanned once the lock is held and the client stopped.
pub enum CleanupPhase {
    Begin { available: Vec<ArchiveCleanupItem>, thread_ids: Vec<String> },
    Protected {
        candidates: Vec<ArchiveCleanupItem>,
        failed: Vec<ArchiveCleanupResultItem>,
        rescanned: Vec<ThreadSnapshot>,
    },
}

/// What the caller does next in a cleanup.
pub enum CleanupStep {
    /// Nothing selected is in scope: answer with these failures, without taking the home's
    /// lock or stopping the client.
    Answer { failed: Vec<ArchiveCleanupResultItem> },
    /// Take the home's lock, stop the client and scan the home again.
    Protect { candidates: Vec<ArchiveCleanupItem>, failed: Vec<ArchiveCleanupResultItem> },
    /// Nothing is left to delete: release the lock, start the client again and answer.
    Release { failed: Vec<ArchiveCleanupResultItem> },
    /// Delete these through the App Server, then sort the attempts by a rescan.
    Delete { confirmed: Vec<ArchiveCleanupItem>, failed: Vec<ArchiveCleanupResultItem> },
}

/// The step that follows `phase` in a cleanup of `provider_id`'s sessions in `scope`.
pub open spec fn cleanup_step_ok(provider_id: Seq<char>, scope: CleanupScope, phase: CleanupPhase, r: CleanupStep) -> bool {
    match phase {
        CleanupPhase::Begin { available, thread_ids } => {
            let found = distinct_ids(thread_ids@).filter(|x: Seq<char>| item_index(available@, x) >= 0);
            if found.len() == 0 {
                r matches CleanupStep::Answer { failed } && cleanup_selected(available@, thread_ids@, scope, Seq::empty(), failed@)
            } else {
                r matches CleanupStep::Protect { candidates, failed } && cleanup_selected(available@, thread_ids@, scope, candidates@, failed@)
            }
        },
        CleanupPhase::Protected { candidates, failed, rescanned } => match r {
            CleanupStep::Release { failed: f } => rechecked_against(rescanned@, provider_id, scope, candidates@, failed@, Seq::empty(), f@),
            CleanupStep::Delete { confirmed, failed: f } => confirmed@.len() > 0 && rechecked_against(rescanned@, provider_id, scope, candidates@, failed@, confirmed@, f@),
            _ => false,
        },
    }
}

/// The next step of a cleanup: select the sessions in scope; with none, answer at once;
/// otherwise protect the home, check the candidates again against its rescan, and delete
/// those still there, or release the home where none is.
pub fn cleanup_step(provider_id: &str, scope: CleanupScope, phase: CleanupPhase) -> (r: CleanupStep)
    ensures
        cleanup_step_ok(provider_id@, scope, phase, r),
{
    match phase {
        CleanupPhase::Begin { available, thread_ids } => {
            let (candidates, failed) = select_cleanup(&available, &thread_ids, scope);
            if candidates.len() == 0 {
                assert(candidates@ =~= Seq::<ArchiveCleanupItem>::empty());
                CleanupStep::Answer { failed }
            } else {
                CleanupStep::Protect { candidates, failed }
            }
        },
        CleanupPhase::Protected { candidates, failed, rescanned } => {
            let available = cleanup_items(&rescanned, provider_id, scope);
            let mut failed = failed;
            let ghost before = failed@;
            let confirmed = recheck_cleanup(&candidates, &available, scope, &mut failed);
            assert(items_listed(available@, rescanned@, provider_id@, scope));
            assert(cleanup_rechecked(candidates@, available@, scope, before, confirmed@, failed@));
            if confirmed.len() == 0 {
                assert(confirmed@ =~= Seq::<ArchiveCleanupItem>::empty());
                CleanupStep::Release { failed }
            } else {
                CleanupStep::Delete { confirmed, failed }
            }
        },
    }
}

} // verus!
