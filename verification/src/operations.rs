//! The decisions inside the long operations on a Codex home: the checks of the provider in
//! use, how a cleanup of a replica is judged, and the messages put together from the
//! steps' results.
use vstd::prelude::*;

use crate::error::AppError;
use crate::models::{
    ArchiveCleanupItem, ArchiveCleanupResultItem, ReplicaMapping, ReplicaResultItem,
    ReplicationAction, ReplicationPlanItem, UpdateSyncAction, UpdateSyncPlanItem,
};
use crate::replication::{
    action_status, cleanup_message, failed_item, find_snapshot, provider_or_unknown, provider_or_unknown_of, snapshot_failed_item,
    snapshot_index, update_sync_failed_item, update_sync_skipped_item,
};
use crate::sessions::ThreadSnapshot;
use crate::text::{all_ws, chars_of, clone_opt, concat, is_blank, lit, opt_chars, str_eq, to_text};

verus! {

broadcast use vstd::string::group_string_axioms;

// ---------------------------------------------------------------------------
// The provider in use
// ---------------------------------------------------------------------------

pub open spec fn missing_provider_text() -> Seq<char> {
    "current Provider is missing from config.toml"@
}

/// The provider a home's `config.toml` selects, as read: it must not be blank.
pub fn current_provider(read: &str) -> (r: Result<String, AppError>)
    ensures
        match r {
            Ok(p) => !all_ws(read@) && p@ == read@,
            Err(e) => all_ws(read@) && e == AppError::Message(e.text_string()) && e.text()
                == missing_provider_text(),
        },
{
    if is_blank(&chars_of(read)) {
        return Err(AppError::Message("current Provider is missing from config.toml".to_string()));
    }
    Ok(read.to_string())
}

pub open spec fn provider_changed_text(expected: Seq<char>, actual: Seq<char>) -> Seq<char> {
    "current Provider changed from "@ + expected + " to "@ + actual + "; rescan before retrying"@
}

/// Before writing, the provider read from `config.toml` must still be the one the operation
/// was planned for.
pub fn assert_current_provider(read: &str, expected: &str) -> (r: Result<(), AppError>)
    ensures
        r is Ok <==> !all_ws(read@) && read@ == expected@,
        r matches Err(e) ==> e is Message && if all_ws(read@) {
            e.text() == missing_provider_text()
        } else {
            e.text() == provider_changed_text(expected@, read@)
        },
{
    let actual = match current_provider(read) {
        Ok(p) => p,
        Err(e) => return Err(e),
    };
    if !crate::text::str_eq(actual.as_str(), expected) {
        let a = concat(&lit("current Provider changed from "), &chars_of(expected));
        let b = concat(&concat(&a, &lit(" to ")), &chars_of(actual.as_str()));
        return Err(AppError::Message(to_text(&concat(&b, &lit("; rescan before retrying")))));
    }
    Ok(())
}

/// The provider in an App Server configuration: the first of the places it may be written
/// that holds a text (`config.modelProvider`, `config.model_provider`, `modelProvider`,
/// `model_provider`, in that order), unless that text is blank. `lookups` holds what each
/// place holds, when it is a text.
pub open spec fn first_text(lookups: Seq<Option<String>>) -> Option<String>
    decreases lookups.len(),
{
    if lookups.len() == 0 {
        None
    } else if lookups[0] is Some {
        lookups[0]
    } else {
        first_text(lookups.drop_first())
    }
}

pub open spec fn reported_provider(lookups: Seq<Option<String>>) -> Option<String> {
    match first_text(lookups) {
        Some(t) => if all_ws(t@) {
            None
        } else {
            Some(t)
        },
        None => None,
    }
}

pub fn config_provider(lookups: &Vec<Option<String>>) -> (r: Option<String>)
    ensures
        r == reported_provider(lookups@),
{
    let mut i: usize = 0;
    assert(lookups@.skip(0) =~= lookups@);
    while i < lookups.len()
        invariant
            i <= lookups@.len(),
            first_text(lookups@) == first_text(lookups@.skip(i as int)),
        decreases lookups@.len() - i,
    {
        assert(lookups@.skip(i as int).drop_first() =~= lookups@.skip(i + 1));
        match &lookups[i] {
            Some(t) => {
                if is_blank(&chars_of(t.as_str())) {
                    return None;
                }
                return Some(t.clone());
            },
            None => {},
        }
        i = i + 1;
    }
    None
}

pub open spec fn server_mismatch_text(expected: Seq<char>, actual: Seq<char>) -> Seq<char> {
    "config.toml Provider is "@ + expected + ", but App Server reports "@ + actual
}

/// The provider the App Server reports (see [`config_provider`]) must be the expected one,
/// when it reports one.
pub fn cross_check_app_server_provider(reported: &Option<String>, expected: &str) -> (r: Result<
    (),
    AppError,
>)
    ensures
        r is Ok <==> match reported {
            Some(a) => a@ == expected@,
            None => true,
        },
        r matches Err(e) ==> e is Message && e.text() == server_mismatch_text(
            expected@,
            reported->0@,
        ),
{
    match reported {
        Some(actual) => {
            if !crate::text::str_eq(actual.as_str(), expected) {
                let a = concat(&lit("config.toml Provider is "), &chars_of(expected));
                let b = concat(&concat(&a, &lit(", but App Server reports ")), &chars_of(actual.as_str()));
                return Err(AppError::Message(to_text(&b)));
            }
            Ok(())
        },
        None => Ok(()),
    }
}

// ---------------------------------------------------------------------------
// Removing a replica
// ---------------------------------------------------------------------------

pub open spec fn still_exists_after_delete_text() -> Seq<char> {
    "thread/delete returned success but the replica rollout still exists"@
}

/// How the removal of a replica is judged once the home has been scanned again:
/// `delete_error` is what the App Server's delete answered, `rescan` whether the replica's
/// rollout is still there (or the scan's error). The removal succeeded exactly when the
/// rollout is gone; otherwise the delete's error is reported first.
pub fn cleanup_outcome(delete_error: Option<AppError>, rescan: Result<bool, AppError>) -> (r: Result<
    (),
    AppError,
>)
    ensures
        r is Ok <==> rescan == Ok::<bool, AppError>(false),
        r matches Err(e) ==> match delete_error {
            Some(d) => e == d,
            None => match rescan {
                Ok(_) => e is Message && e.text() == still_exists_after_delete_text(),
                Err(s) => e == s,
            },
        },
{
    match rescan {
        Ok(false) => Ok(()),
        Ok(true) => match delete_error {
            Some(d) => Err(d),
            None => Err(
                AppError::Message(
                    "thread/delete returned success but the replica rollout still exists".to_string(),
                ),
            ),
        },
        Err(s) => match delete_error {
            Some(d) => Err(d),
            None => Err(s),
        },
    }
}

// ---------------------------------------------------------------------------
// Messages
// ---------------------------------------------------------------------------

/// The texts joined with `sep` between them.
pub open spec fn joined(v: Seq<String>, sep: Seq<char>) -> Seq<char>
    decreases v.len(),
{
    if v.len() == 0 {
        Seq::empty()
    } else if v.len() == 1 {
        v[0]@
    } else {
        joined(v.drop_last(), sep) + sep + v.last()@
    }
}

/// The warning of an operation: its warnings joined with `；`, or none when there were none.
pub fn joined_warning(warnings: &Vec<String>) -> (r: Option<String>)
    ensures
        match r {
            Some(w) => warnings@.len() > 0 && w@ == joined(warnings@, "；"@),
            None => warnings@.len() == 0,
        },
{
    if warnings.len() == 0 {
        return None;
    }
    let sep = lit("；");
    let mut out = chars_of(warnings[0].as_str());
    let mut i: usize = 1;
    assert(warnings@.subrange(0, 1).drop_last() =~= Seq::<String>::empty());
    while i < warnings.len()
        invariant
            1 <= i <= warnings@.len(),
            sep@ == "；"@,
            out@ == joined(warnings@.subrange(0, i as int), "；"@),
        decreases warnings@.len() - i,
    {
        assert(warnings@.subrange(0, i + 1).drop_last() =~= warnings@.subrange(0, i as int));
        out = concat(&concat(&out, &sep), &chars_of(warnings[i].as_str()));
        i = i + 1;
    }
    assert(warnings@.subrange(0, warnings@.len() as int) =~= warnings@);
    Some(to_text(&out))
}

pub open spec fn unconfirmed_text(delete_error: Option<String>) -> Seq<char> {
    match delete_error {
        Some(e) => e@ + "；删除后无法重新扫描确认结果"@,
        None => "Codex 已接受删除请求，但无法重新扫描确认结果"@,
    }
}

/// When the home cannot be scanned again after a cleanup's deletions, every attempt fails,
/// with the server's error (if any) and the note that the result could not be confirmed.
pub fn unconfirmed_cleanup(
    attempts: &Vec<(ArchiveCleanupItem, Option<String>)>,
    failed: &mut Vec<ArchiveCleanupResultItem>,
)
    ensures
        final(failed)@.len() == old(failed)@.len() + attempts@.len(),
        final(failed)@.subrange(0, old(failed)@.len() as int) == old(failed)@,
        forall|k: int|
            0 <= k < attempts@.len() ==> {
                let f = #[trigger] final(failed)@[old(failed)@.len() + k];
                &&& f.thread_id == attempts@[k].0.thread_id
                &&& f.title == attempts@[k].0.title
                &&& f.message@ == unconfirmed_text(attempts@[k].1)
            },
{
    let ghost base = old(failed)@;
    let mut i: usize = 0;
    while i < attempts.len()
        invariant
            i <= attempts@.len(),
            failed@.len() == base.len() + i,
            failed@.subrange(0, base.len() as int) == base,
            forall|k: int|
                0 <= k < i ==> {
                    let f = #[trigger] failed@[base.len() + k];
                    &&& f.thread_id == attempts@[k].0.thread_id
                    &&& f.title == attempts@[k].0.title
                    &&& f.message@ == unconfirmed_text(attempts@[k].1)
                },
        decreases attempts@.len() - i,
    {
        let (item, delete_error) = &attempts[i];
        let message = match delete_error {
            Some(e) => to_text(&concat(&chars_of(e.as_str()), &lit("；删除后无法重新扫描确认结果"))),
            None => "Codex 已接受删除请求，但无法重新扫描确认结果".to_string(),
        };
        let ghost before = failed@;
        failed.push(
            ArchiveCleanupResultItem {
                thread_id: item.thread_id.clone(),
                title: item.title.clone(),
                message,
            },
        );
        assert(failed@.subrange(0, base.len() as int) =~= before.subrange(0, base.len() as int));
        i = i + 1;
    }
}

// ---------------------------------------------------------------------------
// Bringing one replica pair up to date
// ---------------------------------------------------------------------------

/// The last mapping with the given id (mappings are looked up by id as in a map built from
/// the list), or -1.
pub open spec fn mapping_id_index(v: Seq<ReplicaMapping>, id: Seq<char>) -> int
    decreases v.len(),
{
    if v.len() == 0 {
        -1
    } else if v.last().id@ == id {
        v.len() - 1
    } else {
        mapping_id_index(v.drop_last(), id)
    }
}

fn find_mapping_by_id(v: &Vec<ReplicaMapping>, id: &str) -> (r: Option<usize>)
    ensures
        match r {
            Some(i) => mapping_id_index(v@, id@) == i as int && i < v@.len(),
            None => mapping_id_index(v@, id@) == -1,
        },
{
    let mut i: usize = v.len();
    assert(v@.subrange(0, v@.len() as int) =~= v@);
    while i > 0
        invariant
            i <= v.len(),
            mapping_id_index(v@.subrange(0, i as int), id@) == mapping_id_index(v@, id@),
        decreases i,
    {
        assert(v@.subrange(0, i as int).drop_last() =~= v@.subrange(0, i - 1));
        if str_eq(v[i - 1].id.as_str(), id) {
            return Some(i - 1);
        }
        i = i - 1;
    }
    None
}

/// What is known of one plan item of an update sync so far: each phase holds what the last
/// step found.
#[derive(Debug)]
pub enum UpdateItemPhase {
    /// Nothing has been done for the item yet.
    Begin,
    /// Both rollout files were hashed again: whether each still has its scanned raw hash.
    Hashed { unchanged: bool },
    /// The newer session was written over the older one: the error's text, if that failed.
    Rewritten { error: Option<String> },
    /// Both sessions of the pair were looked up again after the write.
    Reread { source: Option<ThreadSnapshot>, replica: Option<ThreadSnapshot> },
    /// The pair's new raw hashes were recorded: the error's text, if that failed.
    Recorded { error: Option<String> },
}

/// The next thing to do for a plan item of an update sync.
#[derive(Debug)]
pub enum UpdateItemAction {
    /// The item is left alone (a conflict or an invalid pair).
    Skip(ReplicaResultItem),
    /// The item failed.
    Fail(ReplicaResultItem),
    /// Hash both rollout files again and compare with the scanned raw hashes.
    CheckHashes {
        source_path: String,
        source_sha256: String,
        replica_path: String,
        replica_sha256: String,
    },
    /// Check that the home still uses the expected provider, then write the rollout at
    /// `from_path` over the one at `to_path`, as thread `thread_id` of `provider_id`.
    Rewrite { from_path: String, to_path: String, thread_id: String, provider_id: String },
    /// Look both sessions up again.
    Reread { source_thread_id: String, replica_thread_id: String },
    /// Record the pair's new raw hashes.
    RecordHashes { mapping_id: String, source_sha256: String, replica_sha256: String },
    /// The pair is in sync; `updated_thread_id` is the session that was rewritten.
    Done { result: ReplicaResultItem, updated_thread_id: String },
}

pub open spec fn failure(r: UpdateItemAction, item: UpdateSyncPlanItem, message: Seq<char>) -> bool {
    &&& r matches UpdateItemAction::Fail(f)
    &&& f.source_thread_id == item.source_thread_id
    &&& f.replica_thread_id == Some(item.replica_thread_id)
    &&& f.title == item.title
    &&& f.status@ == "failed"@
    &&& f.message@ == message
}

pub open spec fn source_updated(item: UpdateSyncPlanItem) -> bool {
    item.action == UpdateSyncAction::SourceUpdated
}

/// What an update sync does for one plan item, given the mappings and the scanned threads
/// of the home and what its steps found so far.
pub open spec fn update_step_ok(
    r: UpdateItemAction,
    item: UpdateSyncPlanItem,
    mappings: Seq<ReplicaMapping>,
    snapshots: Seq<ThreadSnapshot>,
    phase: UpdateItemPhase,
) -> bool {
    let mi = mapping_id_index(mappings, item.mapping_id@);
    let m = mappings[mi];
    let si = snapshot_index(snapshots, m.source_thread_id@);
    let ri = snapshot_index(snapshots, m.replica_thread_id@);
    let (src, rep) = (snapshots[si], snapshots[ri]);
    let su = source_updated(item);
    let updated = if su { src } else { rep };
    let target = if su { rep } else { src };
    let provider = if su { m.target_provider_id } else { m.source_provider_id };
    if item.action == UpdateSyncAction::Conflict || item.action == UpdateSyncAction::Invalid {
        &&& r matches UpdateItemAction::Skip(k)
        &&& k.source_thread_id == item.source_thread_id
        &&& k.replica_thread_id == Some(item.replica_thread_id)
        &&& k.title == item.title
        &&& k.message == item.reason
        &&& k.status@ == if item.action == UpdateSyncAction::Conflict {
            "conflict"@
        } else {
            "invalid"@
        }
    } else if mi < 0 {
        failure(r, item, "复制映射在执行前消失"@)
    } else if si < 0 {
        failure(r, item, "来源会话在执行前消失"@)
    } else if ri < 0 {
        failure(r, item, "副本会话在执行前消失"@)
    } else {
        match phase {
            UpdateItemPhase::Begin => r == UpdateItemAction::CheckHashes {
                source_path: src.rollout_path,
                source_sha256: src.raw_sha256,
                replica_path: rep.rollout_path,
                replica_sha256: rep.raw_sha256,
            },
            UpdateItemPhase::Hashed { unchanged } => if unchanged {
                r == UpdateItemAction::Rewrite {
                    from_path: updated.rollout_path,
                    to_path: target.rollout_path,
                    thread_id: target.thread_id,
                    provider_id: provider,
                }
            } else {
                failure(r, item, "会话在同步前发生变化"@)
            },
            UpdateItemPhase::Rewritten { error } => match error {
                Some(e) => failure(r, item, e@),
                None => r == UpdateItemAction::Reread {
                    source_thread_id: m.source_thread_id,
                    replica_thread_id: m.replica_thread_id,
                },
            },
            UpdateItemPhase::Reread { source, replica } => match (source, replica) {
                (None, _) => failure(r, item, "更新后无法读取来源会话"@),
                (Some(_), None) => failure(r, item, "更新后无法读取副本会话"@),
                (Some(us), Some(ur)) => {
                    let ut = if su { ur } else { us };
                    if opt_chars(ut.provider_id) != Some(provider@) || ut.content_sha256@
                        != updated.content_sha256@ {
                        failure(r, item, "更新后的会话内容或供应商验证失败"@)
                    } else {
                        r == UpdateItemAction::RecordHashes {
                            mapping_id: m.id,
                            source_sha256: us.raw_sha256,
                            replica_sha256: ur.raw_sha256,
                        }
                    }
                },
            },
            UpdateItemPhase::Recorded { error } => match error {
                Some(e) => failure(r, item, "更新同步状态失败："@ + e@),
                None => {
                    &&& r matches UpdateItemAction::Done { result, updated_thread_id }
                    &&& result.source_thread_id == m.source_thread_id
                    &&& result.replica_thread_id == Some(m.replica_thread_id)
                    &&& result.title == updated.title
                    &&& result.status@ == "synchronized"@
                    &&& result.message@ == if su {
                        "已用来源的最新内容更新现有副本"@
                    } else {
                        "已用副本的最新内容更新现有来源会话"@
                    }
                    &&& updated_thread_id == target.thread_id
                },
            },
        }
    }
}

/// The next step of an update sync for one plan item. `mappings` are the verified live
/// mappings into the expected provider and `snapshots` the home's threads, both as scanned
/// before the items are worked through.
pub fn sync_update_step(
    item: &UpdateSyncPlanItem,
    mappings: &Vec<ReplicaMapping>,
    snapshots: &Vec<ThreadSnapshot>,
    phase: UpdateItemPhase,
) -> (r: UpdateItemAction)
    ensures
        update_step_ok(r, *item, mappings@, snapshots@, phase),
{
    match item.action {
        UpdateSyncAction::Conflict | UpdateSyncAction::Invalid => {
            return UpdateItemAction::Skip(update_sync_skipped_item(item));
        },
        _ => {},
    }
    let mi = match find_mapping_by_id(mappings, item.mapping_id.as_str()) {
        Some(i) => i,
        None => return UpdateItemAction::Fail(update_sync_failed_item(item, "复制映射在执行前消失")),
    };
    let m = &mappings[mi];
    let si = match find_snapshot(snapshots, m.source_thread_id.as_str()) {
        Some(i) => i,
        None => return UpdateItemAction::Fail(update_sync_failed_item(item, "来源会话在执行前消失")),
    };
    let ri = match find_snapshot(snapshots, m.replica_thread_id.as_str()) {
        Some(i) => i,
        None => return UpdateItemAction::Fail(update_sync_failed_item(item, "副本会话在执行前消失")),
    };
    let src = &snapshots[si];
    let rep = &snapshots[ri];
    let su = match item.action {
        UpdateSyncAction::SourceUpdated => true,
        _ => false,
    };
    let updated = if su { src } else { rep };
    let target = if su { rep } else { src };
    let provider = if su { &m.target_provider_id } else { &m.source_provider_id };
    match phase {
        UpdateItemPhase::Begin => UpdateItemAction::CheckHashes {
            source_path: src.rollout_path.clone(),
            source_sha256: src.raw_sha256.clone(),
            replica_path: rep.rollout_path.clone(),
            replica_sha256: rep.raw_sha256.clone(),
        },
        UpdateItemPhase::Hashed { unchanged } => {
            if unchanged {
                UpdateItemAction::Rewrite {
                    from_path: updated.rollout_path.clone(),
                    to_path: target.rollout_path.clone(),
                    thread_id: target.thread_id.clone(),
                    provider_id: provider.clone(),
                }
            } else {
                UpdateItemAction::Fail(update_sync_failed_item(item, "会话在同步前发生变化"))
            }
        },
        UpdateItemPhase::Rewritten { error } => match error {
            Some(e) => UpdateItemAction::Fail(update_sync_failed_item(item, e.as_str())),
            None => UpdateItemAction::Reread {
                source_thread_id: m.source_thread_id.clone(),
                replica_thread_id: m.replica_thread_id.clone(),
            },
        },
        UpdateItemPhase::Reread { source, replica } => match (source, replica) {
            (None, _) => UpdateItemAction::Fail(update_sync_failed_item(item, "更新后无法读取来源会话")),
            (Some(_), None) => UpdateItemAction::Fail(
                update_sync_failed_item(item, "更新后无法读取副本会话"),
            ),
            (Some(us), Some(ur)) => {
                let ut = if su { &ur } else { &us };
                let provider_ok = match &ut.provider_id {
                    Some(p) => str_eq(p.as_str(), provider.as_str()),
                    None => false,
                };
                if !provider_ok || !str_eq(ut.content_sha256.as_str(), updated.content_sha256.as_str()) {
                    UpdateItemAction::Fail(
                        update_sync_failed_item(item, "更新后的会话内容或供应商验证失败"),
                    )
                } else {
                    UpdateItemAction::RecordHashes {
                        mapping_id: m.id.clone(),
                        source_sha256: us.raw_sha256,
                        replica_sha256: ur.raw_sha256,
                    }
                }
            },
        },
        UpdateItemPhase::Recorded { error } => match error {
            Some(e) => {
                let message = to_text(&concat(&lit("更新同步状态失败："), &chars_of(e.as_str())));
                UpdateItemAction::Fail(update_sync_failed_item(item, message.as_str()))
            },
            None => {
                let message = if su {
                    "已用来源的最新内容更新现有副本".to_string()
                } else {
                    "已用副本的最新内容更新现有来源会话".to_string()
                };
                UpdateItemAction::Done {
                    result: ReplicaResultItem {
                        source_thread_id: m.source_thread_id.clone(),
                        replica_thread_id: Some(m.replica_thread_id.clone()),
                        title: updated.title.clone(),
                        status: "synchronized".to_string(),
                        message,
                    },
                    updated_thread_id: target.thread_id.clone(),
                }
            },
        },
    }
}

// ---------------------------------------------------------------------------
// Creating one replica
// ---------------------------------------------------------------------------

/// What is known of the replica of one source session so far: each phase holds what the
/// last step found.
#[derive(Debug)]
pub enum ReplicaPhase {
    /// Nothing has been done yet.
    Begin,
    /// The App Server was started and the source read and forked: the new thread's id, or
    /// the error's text.
    Forked { result: Result<String, String> },
    /// The fork's rollout was waited for and its path checked.
    Located { replica_thread_id: String, result: Result<ThreadSnapshot, String> },
    /// The fork's rollout was rewritten to the target provider: the error's text, if any.
    ProviderRewritten { replica_thread_id: String, error: Option<String> },
    /// The fork was given the source's title: the error's text, if that failed.
    Titled { replica_thread_id: String, error: Option<String> },
    /// The fork was checked against the provider in use: its rollout, or the error's text.
    Verified {
        replica_thread_id: String,
        warning: Option<String>,
        result: Result<ThreadSnapshot, String>,
    },
    /// After a failure (`message`), the fork was removed, or not.
    CleanedUp { replica_thread_id: String, message: String, cleanup: Result<(), AppError> },
    /// The mapping of the new pair was saved: the error's text, if that failed.
    Saved { replica_thread_id: String, warning: Option<String>, error: Option<String> },
    /// The home's mappings were read back, or the error's text.
    Listed {
        replica_thread_id: String,
        warning: Option<String>,
        result: Result<Vec<ReplicaMapping>, String>,
    },
}

/// The next thing to do for the replica of one source session.
#[derive(Debug)]
pub enum ReplicaAction {
    /// Start the App Server, read the source thread and fork it.
    Fork { thread_id: String },
    /// Wait for the fork's rollout and check that it lies in the home's sessions.
    Locate { replica_thread_id: String },
    /// Rewrite the fork's rollout to the target provider.
    RewriteProvider { replica_thread_id: String, rollout_path: String, provider_id: String },
    /// Give the fork the source's title.
    SetTitle { replica_thread_id: String, title: String },
    /// Check the fork against the provider in use; `warning` is carried to the end.
    Verify { replica_thread_id: String, warning: Option<String> },
    /// Remove the fork after a failure; when that fails too and `save_orphan` is set, record
    /// the fork as an orphan.
    CleanUp { replica_thread_id: String, message: String, save_orphan: bool },
    /// Save the mapping of the new pair (with a fresh id, and now as its creation and
    /// verification time).
    SaveMapping {
        source_thread_id: String,
        source_provider_id: String,
        target_provider_id: String,
        replica_thread_id: String,
        source_sha256: String,
        replica_sha256: String,
        /// The mapping's status: `verified`.
        status: String,
        warning: Option<String>,
    },
    /// Read the home's mappings back.
    ListMappings { replica_thread_id: String, warning: Option<String> },
    /// The replica could not be made.
    Failed(ReplicaResultItem),
    /// The replica is made and verified, with its mapping as stored and any title warning.
    Done { result: ReplicaResultItem, warning: Option<String>, mapping: ReplicaMapping },
}

pub open spec fn title_warning_text(title: Seq<char>, error: Seq<char>) -> Seq<char> {
    title + "：标题未能恢复（"@ + error + "）"@
}

/// The first live mapping of the pair, or -1.
pub open spec fn pair_index(
    v: Seq<ReplicaMapping>,
    source: Seq<char>,
    target: Seq<char>,
    replica: Seq<char>,
) -> int
    decreases v.len(),
{
    if v.len() == 0 {
        -1
    } else if v[0].source_thread_id@ == source && v[0].target_provider_id@ == target
        && v[0].replica_thread_id@ == replica && v[0].deleted_at is None {
        0
    } else {
        let k = pair_index(v.drop_first(), source, target, replica);
        if k < 0 {
            -1
        } else {
            k + 1
        }
    }
}

fn find_pair(v: &Vec<ReplicaMapping>, source: &str, target: &str, replica: &str) -> (r: Option<
    usize,
>)
    ensures
        match r {
            Some(i) => pair_index(v@, source@, target@, replica@) == i as int && i < v@.len(),
            None => pair_index(v@, source@, target@, replica@) == -1,
        },
{
    let mut i: usize = 0;
    assert(v@.skip(0) =~= v@);
    while i < v.len()
        invariant
            i <= v@.len(),
            pair_index(v@, source@, target@, replica@) == if pair_index(
                v@.skip(i as int),
                source@,
                target@,
                replica@,
            ) < 0 {
                -1
            } else {
                pair_index(v@.skip(i as int), source@, target@, replica@) + i
            },
        decreases v@.len() - i,
    {
        assert(v@.skip(i as int).drop_first() =~= v@.skip(i + 1));
        assert(v@.skip(i as int)[0] == v@[i as int]);
        let m = &v[i];
        if str_eq(m.source_thread_id.as_str(), source) && str_eq(m.target_provider_id.as_str(), target)
            && str_eq(m.replica_thread_id.as_str(), replica) && m.deleted_at.is_none() {
            return Some(i);
        }
        i = i + 1;
    }
    None
}

pub open spec fn replica_failed(
    r: ReplicaAction,
    source: ThreadSnapshot,
    replica_thread_id: Option<String>,
    message: Seq<char>,
) -> bool {
    &&& r matches ReplicaAction::Failed(f)
    &&& f.source_thread_id == source.thread_id
    &&& f.replica_thread_id == replica_thread_id
    &&& f.title == source.title
    &&& f.status@ == if crate::text::contains(message, "未清理"@) {
        "orphaned"@
    } else {
        "failed_cleaned"@
    }
    &&& f.message@ == message
}

pub open spec fn cleans_up(r: ReplicaAction, replica: String, message: Seq<char>, orphan: bool) -> bool {
    &&& r matches ReplicaAction::CleanUp { replica_thread_id, message: m, save_orphan }
    &&& replica_thread_id == replica
    &&& m@ == message
    &&& save_orphan == orphan
}

/// After the fork's rollout is where it belongs: rewrite its provider when it is not the
/// target, else give it the source's title when the source has one of its own, else verify.
pub open spec fn after_provider(
    r: ReplicaAction,
    source: ThreadSnapshot,
    replica: String,
) -> bool {
    if source.title@ != source.thread_id@ {
        r == ReplicaAction::SetTitle { replica_thread_id: replica, title: source.title }
    } else {
        r == ReplicaAction::Verify { replica_thread_id: replica, warning: None }
    }
}

/// What creating the replica of `source` in `target_provider` does next, given what its
/// steps found so far.
pub open spec fn replica_step_ok(
    r: ReplicaAction,
    source: ThreadSnapshot,
    target_provider: Seq<char>,
    phase: ReplicaPhase,
) -> bool {
    match phase {
        ReplicaPhase::Begin => r == ReplicaAction::Fork { thread_id: source.thread_id },
        ReplicaPhase::Forked { result } => match result {
            Err(e) => replica_failed(r, source, None, e@),
            Ok(id) => if id@ == source.thread_id@ {
                replica_failed(r, source, None, "thread/fork returned the source Thread ID"@)
            } else {
                r == ReplicaAction::Locate { replica_thread_id: id }
            },
        },
        ReplicaPhase::Located { replica_thread_id, result } => match result {
            Err(e) => cleans_up(r, replica_thread_id, e@, true),
            Ok(rs) => if opt_chars(rs.provider_id) != Some(target_provider) {
                &&& r matches ReplicaAction::RewriteProvider { replica_thread_id: id, rollout_path, provider_id }
                &&& id == replica_thread_id
                &&& rollout_path == rs.rollout_path
                &&& provider_id@ == target_provider
            } else {
                after_provider(r, source, replica_thread_id)
            },
        },
        ReplicaPhase::ProviderRewritten { replica_thread_id, error } => match error {
            Some(e) => cleans_up(r, replica_thread_id, e@, true),
            None => after_provider(r, source, replica_thread_id),
        },
        ReplicaPhase::Titled { replica_thread_id, error } => {
            &&& r matches ReplicaAction::Verify { replica_thread_id: id, warning }
            &&& id == replica_thread_id
            &&& match error {
                Some(e) => warning matches Some(w) && w@ == title_warning_text(source.title@, e@),
                None => warning is None,
            }
        },
        ReplicaPhase::Verified { replica_thread_id, warning, result } => match result {
            Err(e) => cleans_up(r, replica_thread_id, e@, true),
            Ok(rs) => {
                &&& r matches ReplicaAction::SaveMapping {
                    source_thread_id,
                    source_provider_id,
                    target_provider_id,
                    replica_thread_id: id,
                    source_sha256,
                    replica_sha256,
                    status,
                    warning: w,
                }
                &&& status@ == "verified"@
                &&& w == warning
                &&& source_thread_id == source.thread_id
                &&& source_provider_id@ == provider_or_unknown(source)
                &&& target_provider_id@ == target_provider
                &&& id == replica_thread_id
                &&& source_sha256 == source.raw_sha256
                &&& replica_sha256 == rs.raw_sha256
            },
        },
        ReplicaPhase::CleanedUp { replica_thread_id, message, cleanup } => replica_failed(
            r,
            source,
            Some(replica_thread_id),
            match cleanup {
                Ok(()) => message@ + "；本次未验证副本已删除"@,
                Err(e) => message@ + "；副本未清理："@ + e.text(),
            },
        ),
        ReplicaPhase::Saved { replica_thread_id, warning, error } => match error {
            Some(e) => cleans_up(r, replica_thread_id, "映射记录失败："@ + e@, false),
            None => r == ReplicaAction::ListMappings { replica_thread_id, warning },
        },
        ReplicaPhase::Listed { replica_thread_id, warning, result } => match result {
            Err(e) => cleans_up(r, replica_thread_id, "映射校验失败："@ + e@, false),
            Ok(v) => {
                let k = pair_index(v@, source.thread_id@, target_provider, replica_thread_id@);
                if k < 0 {
                    cleans_up(r, replica_thread_id, "映射校验失败：刚创建的迁移关系无法读取"@, false)
                } else {
                    &&& r matches ReplicaAction::Done { result, warning: w, mapping }
                    &&& result.source_thread_id == source.thread_id
                    &&& result.replica_thread_id == Some(replica_thread_id)
                    &&& result.title == source.title
                    &&& result.status@ == "verified"@
                    &&& result.message@ == "已创建新会话并通过当前 Provider 验证"@
                    &&& w == warning
                    &&& mapping == v@[k]
                }
            },
        },
    }
}

fn step_after_provider(source: &ThreadSnapshot, replica_thread_id: String) -> (r: ReplicaAction)
    ensures
        after_provider(r, *source, replica_thread_id),
{
    if !str_eq(source.title.as_str(), source.thread_id.as_str()) {
        ReplicaAction::SetTitle { replica_thread_id, title: source.title.clone() }
    } else {
        ReplicaAction::Verify { replica_thread_id, warning: None }
    }
}

/// The next step of creating the replica of `source` in `target_provider`. A warning about
/// the title travels with the actions and comes back in the phases.
pub fn replicate_step(source: &ThreadSnapshot, target_provider: &str, phase: ReplicaPhase) -> (r:
    ReplicaAction)
    ensures
        replica_step_ok(r, *source, target_provider@, phase),
{
    match phase {
        ReplicaPhase::Begin => ReplicaAction::Fork { thread_id: source.thread_id.clone() },
        ReplicaPhase::Forked { result } => match result {
            Err(e) => ReplicaAction::Failed(snapshot_failed_item(source, None, e.as_str())),
            Ok(id) => {
                if str_eq(id.as_str(), source.thread_id.as_str()) {
                    ReplicaAction::Failed(
                        snapshot_failed_item(source, None, "thread/fork returned the source Thread ID"),
                    )
                } else {
                    ReplicaAction::Locate { replica_thread_id: id }
                }
            },
        },
        ReplicaPhase::Located { replica_thread_id, result } => match result {
            Err(e) => ReplicaAction::CleanUp { replica_thread_id, message: e, save_orphan: true },
            Ok(rs) => {
                let same = match &rs.provider_id {
                    Some(p) => str_eq(p.as_str(), target_provider),
                    None => false,
                };
                if !same {
                    ReplicaAction::RewriteProvider {
                        replica_thread_id,
                        rollout_path: rs.rollout_path,
                        provider_id: target_provider.to_string(),
                    }
                } else {
                    step_after_provider(source, replica_thread_id)
                }
            },
        },
        ReplicaPhase::ProviderRewritten { replica_thread_id, error } => match error {
            Some(e) => ReplicaAction::CleanUp { replica_thread_id, message: e, save_orphan: true },
            None => step_after_provider(source, replica_thread_id),
        },
        ReplicaPhase::Titled { replica_thread_id, error } => ReplicaAction::Verify {
            replica_thread_id,
            warning: match error {
                Some(e) => Some(title_warning(source.title.as_str(), e.as_str())),
                None => None,
            },
        },
        ReplicaPhase::Verified { replica_thread_id, warning, result } => match result {
            Err(e) => ReplicaAction::CleanUp { replica_thread_id, message: e, save_orphan: true },
            Ok(rs) => ReplicaAction::SaveMapping {
                source_thread_id: source.thread_id.clone(),
                source_provider_id: provider_or_unknown_of(source),
                target_provider_id: target_provider.to_string(),
                replica_thread_id,
                source_sha256: source.raw_sha256.clone(),
                replica_sha256: rs.raw_sha256,
                status: "verified".to_string(),
                warning,
            },
        },
        ReplicaPhase::CleanedUp { replica_thread_id, message, cleanup } => {
            let text = cleanup_message(message.as_str(), cleanup);
            ReplicaAction::Failed(snapshot_failed_item(source, Some(replica_thread_id), text.as_str()))
        },
        ReplicaPhase::Saved { replica_thread_id, warning, error } => match error {
            Some(e) => ReplicaAction::CleanUp {
                replica_thread_id,
                message: to_text(&concat(&lit("映射记录失败："), &chars_of(e.as_str()))),
                save_orphan: false,
            },
            None => ReplicaAction::ListMappings { replica_thread_id, warning },
        },
        ReplicaPhase::Listed { replica_thread_id, warning, result } => match result {
            Err(e) => ReplicaAction::CleanUp {
                replica_thread_id,
                message: to_text(&concat(&lit("映射校验失败："), &chars_of(e.as_str()))),
                save_orphan: false,
            },
            Ok(v) => match find_pair(
                &v,
                source.thread_id.as_str(),
                target_provider,
                replica_thread_id.as_str(),
            ) {
                None => ReplicaAction::CleanUp {
                    replica_thread_id,
                    message: "映射校验失败：刚创建的迁移关系无法读取".to_string(),
                    save_orphan: false,
                },
                Some(k) => ReplicaAction::Done {
                    result: ReplicaResultItem {
                        source_thread_id: source.thread_id.clone(),
                        replica_thread_id: Some(replica_thread_id),
                        title: source.title.clone(),
                        status: "verified".to_string(),
                        message: "已创建新会话并通过当前 Provider 验证".to_string(),
                    },
                    warning,
                    mapping: crate::replication::copy_mapping(&v[k]),
                },
            },
        },
    }
}

/// The warning for a title that could not be given to a replica.
pub fn title_warning(title: &str, error: &str) -> (r: String)
    ensures
        r@ == title_warning_text(title@, error@),
{
    let a = concat(&concat(&chars_of(title), &lit("：标题未能恢复（")), &chars_of(error));
    to_text(&concat(&a, &lit("）")))
}

// ---------------------------------------------------------------------------
// Checking a replica
// ---------------------------------------------------------------------------

/// A thread as the App Server lists it: its id (`id`, else `threadId`) and its provider
/// (`modelProvider`, else `model_provider`), where given as texts.
#[derive(Debug)]
pub struct ListedThread {
    pub id: Option<String>,
    pub provider: Option<String>,
}

/// The first listed thread with the given id, or -1.
pub open spec fn listed_index(v: Seq<ListedThread>, id: Seq<char>) -> int
    decreases v.len(),
{
    if v.len() == 0 {
        -1
    } else if opt_chars(v[0].id) == Some(id) {
        0
    } else {
        let k = listed_index(v.drop_first(), id);
        if k < 0 {
            -1
        } else {
            k + 1
        }
    }
}

pub open spec fn absent_replica_text() -> Seq<char> {
    "replica is absent from the current Provider list"@
}

pub open spec fn listed_provider_text(provider: Seq<char>, expected: Seq<char>) -> Seq<char> {
    "replica Provider is "@ + provider + ", expected "@ + expected
}

/// The replica must be in the App Server's list of the provider in use, and where that
/// list names its provider, it must be that provider.
pub fn check_listed_replica(
    listed: &Vec<ListedThread>,
    replica_thread_id: &str,
    target_provider: &str,
) -> (r: Result<(), AppError>)
    ensures
        ({
            let k = listed_index(listed@, replica_thread_id@);
            &&& r is Ok <==> k >= 0 && match listed@[k].provider {
                Some(p) => p@ == target_provider@,
                None => true,
            }
            &&& r matches Err(e) ==> e is InvalidSession && if k < 0 {
                e.text() == absent_replica_text()
            } else {
                e.text() == listed_provider_text(listed@[k].provider->0@, target_provider@)
            }
        }),
{
    let mut i: usize = 0;
    assert(listed@.skip(0) =~= listed@);
    while i < listed.len()
        invariant
            i <= listed@.len(),
            listed_index(listed@, replica_thread_id@) == if listed_index(
                listed@.skip(i as int),
                replica_thread_id@,
            ) < 0 {
                -1
            } else {
                listed_index(listed@.skip(i as int), replica_thread_id@) + i
            },
        decreases listed@.len() - i,
    {
        assert(listed@.skip(i as int).drop_first() =~= listed@.skip(i + 1));
        assert(listed@.skip(i as int)[0] == listed@[i as int]);
        let found = match &listed[i].id {
            Some(id) => str_eq(id.as_str(), replica_thread_id),
            None => false,
        };
        if found {
            return match &listed[i].provider {
                Some(p) => {
                    if str_eq(p.as_str(), target_provider) {
                        Ok(())
                    } else {
                        let a = concat(&lit("replica Provider is "), &chars_of(p.as_str()));
                        let b = concat(&concat(&a, &lit(", expected ")), &chars_of(target_provider));
                        Err(AppError::InvalidSession(to_text(&b)))
                    }
                },
                None => Ok(()),
            };
        }
        i = i + 1;
    }
    Err(AppError::InvalidSession("replica is absent from the current Provider list".to_string()))
}

/// The thread the App Server read back must be the replica: by its id, or by `thread.id`.
pub fn check_read_replica(id: &Option<String>, nested_id: &Option<String>, replica_thread_id: &str) -> (r:
    Result<(), AppError>)
    ensures
        r is Ok <==> opt_chars(*id) == Some(replica_thread_id@) || opt_chars(*nested_id) == Some(
            replica_thread_id@,
        ),
        r matches Err(e) ==> e is InvalidSession && e.text()
            == "thread/read returned a different replica"@,
{
    let direct = match id {
        Some(v) => str_eq(v.as_str(), replica_thread_id),
        None => false,
    };
    let nested = match nested_id {
        Some(v) => str_eq(v.as_str(), replica_thread_id),
        None => false,
    };
    if !direct && !nested {
        return Err(AppError::InvalidSession("thread/read returned a different replica".to_string()));
    }
    Ok(())
}

/// The replica's rollout must belong to the provider in use and keep the source's project.
pub fn check_replica_rollout(
    replica: &ThreadSnapshot,
    source: &ThreadSnapshot,
    target_provider: &str,
) -> (r: Result<(), AppError>)
    ensures
        r is Ok <==> opt_chars(replica.provider_id) == Some(target_provider@) && opt_chars(
            replica.cwd,
        ) == opt_chars(source.cwd),
        r matches Err(e) ==> e is InvalidSession && if opt_chars(replica.provider_id) != Some(
            target_provider@,
        ) {
            e.text() == "replica rollout does not belong to the current Provider"@
        } else {
            e.text() == "replica project path does not match the source"@
        },
{
    let provider_ok = match &replica.provider_id {
        Some(p) => str_eq(p.as_str(), target_provider),
        None => false,
    };
    if !provider_ok {
        return Err(
            AppError::InvalidSession("replica rollout does not belong to the current Provider".to_string()),
        );
    }
    let same_cwd = match (&replica.cwd, &source.cwd) {
        (Some(a), Some(b)) => str_eq(a.as_str(), b.as_str()),
        (None, None) => true,
        _ => false,
    };
    if !same_cwd {
        return Err(
            AppError::InvalidSession("replica project path does not match the source".to_string()),
        );
    }
    Ok(())
}

/// The source's rollout must still have the raw hash it was scanned with.
pub fn check_source_unchanged(hashed_now: &str, source: &ThreadSnapshot) -> (r: Result<(), AppError>)
    ensures
        r is Ok <==> hashed_now@ == source.raw_sha256@,
        r matches Err(e) ==> e is InvalidSession && e.text()
            == "source rollout changed during replication"@,
{
    if !str_eq(hashed_now, source.raw_sha256.as_str()) {
        return Err(AppError::InvalidSession("source rollout changed during replication".to_string()));
    }
    Ok(())
}

// ---------------------------------------------------------------------------
// One item of a replication
// ---------------------------------------------------------------------------

/// The next thing to do for one item of a replication run.
#[derive(Debug)]
pub enum ExecuteItemAction {
    /// The item is not carried out.
    Skip(ReplicaResultItem),
    /// The item failed before a replica was made.
    Fail(ReplicaResultItem),
    /// Hash the source's rollout file.
    HashSource { rollout_path: String },
    /// Make the replica of the scanned thread at this index.
    Replicate { source_index: usize },
}

pub open spec fn execute_failure(r: ExecuteItemAction, item: ReplicationPlanItem, message: Seq<char>) -> bool {
    &&& r matches ExecuteItemAction::Fail(f)
    &&& f.source_thread_id == item.thread_id
    &&& f.replica_thread_id is None
    &&& f.title == item.title
    &&& f.status@ == "failed"@
    &&& f.message@ == message
}

/// One item of a replication run: only planned replicas are made, of a source that is still
/// there with the hash the plan saw, in its scan and in its file (`hashed`, once read).
pub fn replication_item_step(
    item: &ReplicationPlanItem,
    snapshots: &Vec<ThreadSnapshot>,
    hashed: Option<String>,
) -> (r: ExecuteItemAction)
    ensures
        ({
            let si = snapshot_index(snapshots@, item.thread_id@);
            if item.action != ReplicationAction::CreateReplica {
                &&& r matches ExecuteItemAction::Skip(k)
                &&& k.source_thread_id == item.thread_id
                &&& k.replica_thread_id == item.replica_thread_id
                &&& k.title == item.title
                &&& k.status@ == crate::replication::status_text(item.action)
                &&& k.message == item.reason
            } else if si < 0 {
                execute_failure(r, *item, "来源会话在执行前消失"@)
            } else if snapshots@[si].raw_sha256@ != item.source_sha256@ {
                execute_failure(r, *item, "来源会话在执行前发生变化"@)
            } else {
                match hashed {
                    None => r == ExecuteItemAction::HashSource {
                        rollout_path: snapshots@[si].rollout_path,
                    },
                    Some(h) => if h@ != item.source_sha256@ {
                        execute_failure(r, *item, "来源会话在执行前发生变化"@)
                    } else {
                        r == ExecuteItemAction::Replicate { source_index: si as usize }
                    },
                }
            }
        }),
{
    match item.action {
        ReplicationAction::CreateReplica => {},
        _ => {
            return ExecuteItemAction::Skip(
                ReplicaResultItem {
                    source_thread_id: item.thread_id.clone(),
                    replica_thread_id: clone_opt(&item.replica_thread_id),
                    title: item.title.clone(),
                    status: action_status(&item.action),
                    message: item.reason.clone(),
                },
            );
        },
    }
    let si = match find_snapshot(snapshots, item.thread_id.as_str()) {
        Some(i) => i,
        None => return ExecuteItemAction::Fail(failed_item(item, None, "来源会话在执行前消失")),
    };
    if !str_eq(snapshots[si].raw_sha256.as_str(), item.source_sha256.as_str()) {
        return ExecuteItemAction::Fail(failed_item(item, None, "来源会话在执行前发生变化"));
    }
    match hashed {
        None => ExecuteItemAction::HashSource { rollout_path: snapshots[si].rollout_path.clone() },
        Some(h) => {
            if !str_eq(h.as_str(), item.source_sha256.as_str()) {
                ExecuteItemAction::Fail(failed_item(item, None, "来源会话在执行前发生变化"))
            } else {
                ExecuteItemAction::Replicate { source_index: si }
            }
        },
    }
}

// ---------------------------------------------------------------------------
// Finishing a migration
// ---------------------------------------------------------------------------

/// What is known of removing the source of a migrated session so far.
#[derive(Debug)]
pub enum MigrationPhase {
    /// Nothing has been done yet.
    Begin,
    /// The mapping was marked deleted: the error's text, if that failed.
    Unmapped { error: Option<String> },
    /// The source thread was deleted: the error's text, if that failed.
    SourceDeleted { error: Option<String> },
    /// After the source could not be deleted (`delete_error`), the new replica was deleted
    /// again: the error's text, if that failed.
    ReplicaDeleted { delete_error: String, rollback_error: Option<String> },
}

/// The next thing to do when a replica replaces its source.
#[derive(Debug)]
pub enum MigrationAction {
    /// Mark the pair's mapping deleted.
    Unmap { mapping_id: String },
    /// Delete the source thread.
    DeleteSource { thread_id: String },
    /// Delete the new replica, as the source stays.
    DeleteReplica { thread_id: String },
    /// Done: `Ok` when the source is gone; otherwise the message, and whether the replica is
    /// to be recorded as an orphan first.
    Finished { result: Result<(), String>, save_orphan: bool },
}

pub open spec fn finished_with(r: MigrationAction, message: Seq<char>, orphan: bool) -> bool {
    &&& r matches MigrationAction::Finished { result, save_orphan }
    &&& result matches Err(m) && m@ == message
    &&& save_orphan == orphan
}

/// The next step of removing `source` once its replica (`mapping`) is verified: unmap, then
/// delete the source; if that fails, delete the replica again so that the source stays.
pub fn finalize_migration_step(source: &ThreadSnapshot, mapping: &ReplicaMapping, phase: MigrationPhase) -> (r:
    MigrationAction)
    ensures
        match phase {
            MigrationPhase::Begin => r == MigrationAction::Unmap { mapping_id: mapping.id },
            MigrationPhase::Unmapped { error } => match error {
                Some(e) => finished_with(r, "迁移关系解除失败，未删除来源会话："@ + e@, false),
                None => r == MigrationAction::DeleteSource { thread_id: source.thread_id },
            },
            MigrationPhase::SourceDeleted { error } => match error {
                None => r == MigrationAction::Finished { result: Ok(()), save_orphan: false },
                Some(_) => r == MigrationAction::DeleteReplica { thread_id: mapping.replica_thread_id },
            },
            MigrationPhase::ReplicaDeleted { delete_error, rollback_error } => match rollback_error {
                None => finished_with(
                    r,
                    "来源会话删除失败："@ + delete_error@ + "；已删除刚创建的目标会话，来源会话保持不变"@,
                    false,
                ),
                Some(e) => finished_with(
                    r,
                    "来源会话删除失败："@ + delete_error@ + "；目标会话回滚失败，需清理异常副本："@ + e@,
                    true,
                ),
            },
        },
{
    match phase {
        MigrationPhase::Begin => MigrationAction::Unmap { mapping_id: mapping.id.clone() },
        MigrationPhase::Unmapped { error } => match error {
            Some(e) => MigrationAction::Finished {
                result: Err(to_text(&concat(&lit("迁移关系解除失败，未删除来源会话："), &chars_of(e.as_str())))),
                save_orphan: false,
            },
            None => MigrationAction::DeleteSource { thread_id: source.thread_id.clone() },
        },
        MigrationPhase::SourceDeleted { error } => match error {
            None => MigrationAction::Finished { result: Ok(()), save_orphan: false },
            Some(_) => MigrationAction::DeleteReplica { thread_id: mapping.replica_thread_id.clone() },
        },
        MigrationPhase::ReplicaDeleted { delete_error, rollback_error } => {
            let head = concat(&lit("来源会话删除失败："), &chars_of(delete_error.as_str()));
            match rollback_error {
                None => MigrationAction::Finished {
                    result: Err(to_text(&concat(&head, &lit("；已删除刚创建的目标会话，来源会话保持不变")))),
                    save_orphan: false,
                },
                Some(e) => {
                    let a = concat(&head, &lit("；目标会话回滚失败，需清理异常副本："));
                    MigrationAction::Finished {
                        result: Err(to_text(&concat(&a, &chars_of(e.as_str())))),
                        save_orphan: true,
                    }
                },
            }
        },
    }
}

/// The result of a migrated session: the replica's result, marked migrated.
pub fn migrated_item(result: ReplicaResultItem) -> (r: ReplicaResultItem)
    ensures
        r.source_thread_id == result.source_thread_id,
        r.replica_thread_id == result.replica_thread_id,
        r.title == result.title,
        r.status@ == "migrated"@,
        r.message@ == "已迁移到当前供应商并永久删除来源会话"@,
{
    ReplicaResultItem {
        status: "migrated".to_string(),
        message: "已迁移到当前供应商并永久删除来源会话".to_string(),
        ..result
    }
}

/// The failure of a migration whose source could not be removed.
pub fn migration_failed_item(result: ReplicaResultItem, message: String) -> (r: ReplicaResultItem)
    ensures
        r.source_thread_id == result.source_thread_id,
        r.replica_thread_id == result.replica_thread_id,
        r.title == result.title,
        r.status@ == "failed"@,
        r.message == message,
{
    ReplicaResultItem { status: "failed".to_string(), message, ..result }
}

} // verus!
