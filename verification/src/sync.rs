//! Planning a copy of sessions from one profile's Codex home into another's.
use vstd::prelude::*;

use crate::error::AppError;
use crate::models::Profile;
use crate::replication::distinct_ids;
use crate::sessions::ThreadSnapshot;
use crate::platform::Os;
use crate::paths::{is_sep, is_separator, join, path_join, sep_pred, trim_separators, trim_seps};
use crate::text::{
    chars_of, clone_opt, concat, contains_text, has_prefix, lemma_lex_total, lemma_trim_start_by,
    less_than, lex_lt, lit, opt_chars, slice_of, starts_with, str_eq, string_of, to_text, trim_start_by,
};

verus! {

broadcast use vstd::string::group_string_axioms;

/// What a sync does with one selected session.
#[derive(Debug, Clone, Copy, PartialEq, Eq, Structural)]
pub enum SyncAction {
    Copy,
    Update,
    SkipIdentical,
    SkipTargetAhead,
    Conflict,
    Invalid,
}

/// One selected session in a sync preview.
#[derive(Debug, Clone)]
pub struct SyncPlanItem {
    pub thread_id: String,
    pub title: String,
    pub action: SyncAction,
    pub reason: String,
    pub source_sha256: String,
    pub target_sha256: Option<String>,
    pub size_bytes: u64,
}

/// The plan of a sync and its counts.
#[derive(Debug, Clone)]
pub struct SyncPreview {
    pub source_profile_id: String,
    pub target_profile_id: String,
    pub items: Vec<SyncPlanItem>,
    pub copy_count: usize,
    pub update_count: usize,
    pub skip_count: usize,
    pub conflict_count: usize,
    pub backup_bytes: u64,
}

/// `a`'s events are a complete prefix of `b`'s.
pub open spec fn events_prefix(a: ThreadSnapshot, b: ThreadSnapshot) -> bool {
    a.normalized_lines@.len() <= b.normalized_lines@.len() && forall|i: int|
        0 <= i < a.normalized_lines@.len() ==> (#[trigger] a.normalized_lines@[i])@
            == b.normalized_lines@[i]@
}

pub fn is_prefix(a: &ThreadSnapshot, b: &ThreadSnapshot) -> (r: bool)
    ensures
        r == events_prefix(*a, *b),
{
    let x = &a.normalized_lines;
    let y = &b.normalized_lines;
    if x.len() > y.len() {
        return false;
    }
    let mut i: usize = 0;
    while i < x.len()
        invariant
            x@ == a.normalized_lines@,
            y@ == b.normalized_lines@,
            x@.len() <= y@.len(),
            i <= x@.len(),
            forall|j: int| 0 <= j < i ==> (#[trigger] x@[j])@ == y@[j]@,
        decreases x@.len() - i,
    {
        if x[i] != y[i] {
            return false;
        }
        i = i + 1;
    }
    true
}

/// The first thread with the given id (the map of a profile keeps the first), or -1.
pub open spec fn first_snapshot(v: Seq<ThreadSnapshot>, id: Seq<char>) -> int
    decreases v.len(),
{
    if v.len() == 0 {
        -1
    } else if v[0].thread_id@ == id {
        0
    } else {
        let k = first_snapshot(v.drop_first(), id);
        if k < 0 {
            -1
        } else {
            k + 1
        }
    }
}

pub proof fn lemma_first_snapshot(v: Seq<ThreadSnapshot>, id: Seq<char>, k: int)
    requires
        0 <= k <= v.len(),
        forall|j: int| 0 <= j < k ==> (#[trigger] v[j]).thread_id@ != id,
        k == v.len() || v[k].thread_id@ == id,
    ensures
        first_snapshot(v, id) == if k == v.len() {
            -1
        } else {
            k
        },
    decreases k,
{
    if k > 0 {
        let t = v.drop_first();
        assert forall|j: int| 0 <= j < k - 1 implies (#[trigger] t[j]).thread_id@ != id by {
            assert(t[j] == v[j + 1]);
        }
        assert(v[0].thread_id@ != id);
        if k < v.len() {
            assert(t[k - 1] == v[k]);
        }
        lemma_first_snapshot(t, id, k - 1);
    }
}

fn find_first(v: &Vec<ThreadSnapshot>, id: &str) -> (r: Option<usize>)
    ensures
        match r {
            Some(i) => first_snapshot(v@, id@) == i as int && i < v@.len(),
            None => first_snapshot(v@, id@) == -1,
        },
{
    let mut i: usize = 0;
    while i < v.len() && !str_eq(v[i].thread_id.as_str(), id)
        invariant
            i <= v@.len(),
            forall|j: int| 0 <= j < i ==> (#[trigger] v@[j]).thread_id@ != id@,
        decreases v@.len() - i,
    {
        i = i + 1;
    }
    proof {
        lemma_first_snapshot(v@, id@, i as int);
    }
    if i < v.len() {
        Some(i)
    } else {
        None
    }
}

/// The decision for a selected id: the action, its reason, and the target's content hash.
pub open spec fn sync_plan(
    x: Seq<char>,
    sources: Seq<ThreadSnapshot>,
    targets: Seq<ThreadSnapshot>,
) -> (SyncAction, Seq<char>, Option<Seq<char>>) {
    let si = first_snapshot(sources, x);
    let ti = first_snapshot(targets, x);
    if si < 0 {
        (SyncAction::Invalid, "source session was not found"@, None)
    } else if ti < 0 {
        (SyncAction::Copy, "target profile does not contain this session"@, None)
    } else {
        let s = sources[si];
        let t = targets[ti];
        let th = Some(t.content_sha256@);
        if s.content_sha256@ == t.content_sha256@ {
            (SyncAction::SkipIdentical, "source and target content are identical"@, th)
        } else if events_prefix(t, s) {
            (SyncAction::Update, "target is an older prefix of source"@, th)
        } else if events_prefix(s, t) {
            (SyncAction::SkipTargetAhead, "target contains newer events"@, th)
        } else {
            (SyncAction::Conflict, "source and target histories have diverged"@, th)
        }
    }
}

/// The plan item for a selected id.
pub open spec fn sync_item_ok(
    item: SyncPlanItem,
    x: Seq<char>,
    sources: Seq<ThreadSnapshot>,
    targets: Seq<ThreadSnapshot>,
) -> bool {
    let si = first_snapshot(sources, x);
    let p = sync_plan(x, sources, targets);
    &&& item.action == p.0
    &&& item.reason@ == p.1
    &&& opt_chars(item.target_sha256) == p.2
    &&& if si < 0 {
        &&& item.thread_id@ == x
        &&& item.title@ == x
        &&& item.source_sha256@ == Seq::<char>::empty()
        &&& item.size_bytes == 0
    } else {
        &&& item.thread_id == sources[si].thread_id
        &&& item.title == sources[si].title
        &&& item.source_sha256 == sources[si].content_sha256
        &&& item.size_bytes == sources[si].size_bytes
    }
}

fn plan_sync_one(
    id: &String,
    sources: &Vec<ThreadSnapshot>,
    targets: &Vec<ThreadSnapshot>,
) -> (r: SyncPlanItem)
    ensures
        sync_item_ok(r, id@, sources@, targets@),
{
    let si = match find_first(sources, id.as_str()) {
        Some(i) => i,
        None => {
            return SyncPlanItem {
                thread_id: id.clone(),
                title: id.clone(),
                action: SyncAction::Invalid,
                reason: "source session was not found".to_string(),
                source_sha256: String::new(),
                target_sha256: None,
                size_bytes: 0,
            };
        },
    };
    proof {
        crate::replication::lemma_snapshot_index(sources@, id@);
    }
    let s = &sources[si];
    let (action, reason, target_sha256) = match find_first(targets, id.as_str()) {
        None => (SyncAction::Copy, "target profile does not contain this session".to_string(), None),
        Some(ti) => {
            let t = &targets[ti];
            if s.content_sha256 == t.content_sha256 {
                (
                    SyncAction::SkipIdentical,
                    "source and target content are identical".to_string(),
                    Some(t.content_sha256.clone()),
                )
            } else if is_prefix(t, s) {
                (
                    SyncAction::Update,
                    "target is an older prefix of source".to_string(),
                    Some(t.content_sha256.clone()),
                )
            } else if is_prefix(s, t) {
                (
                    SyncAction::SkipTargetAhead,
                    "target contains newer events".to_string(),
                    Some(t.content_sha256.clone()),
                )
            } else {
                (
                    SyncAction::Conflict,
                    "source and target histories have diverged".to_string(),
                    Some(t.content_sha256.clone()),
                )
            }
        },
    };
    SyncPlanItem {
        thread_id: s.thread_id.clone(),
        title: s.title.clone(),
        action,
        reason,
        source_sha256: s.content_sha256.clone(),
        target_sha256,
        size_bytes: s.size_bytes,
    }
}

/// Titles in non-decreasing order.
pub open spec fn sorted_by_title(v: Seq<SyncPlanItem>) -> bool {
    forall|i: int, j: int| 0 <= i < j < v.len() ==> !lex_lt((#[trigger] v[j]).title@, (#[trigger] v[i]).title@)
}

/// The items put in order of their titles; each item is kept as it is.
fn sort_by_title(v: Vec<SyncPlanItem>) -> (r: Vec<SyncPlanItem>)
    ensures
        sorted_by_title(r@),
        r@.len() == v@.len(),
        forall|i: int| 0 <= i < r@.len() ==> v@.contains(#[trigger] r@[i]),
        forall|j: int| 0 <= j < v@.len() ==> r@.contains(#[trigger] v@[j]),
{
    let mut out: Vec<SyncPlanItem> = Vec::new();
    let ghost vs = v@;
    let total = v.len();
    let mut rest = v;
    let mut n: usize = 0;
    assert(vs.len() == total);
    while rest.len() > 0
        invariant
            vs.len() <= usize::MAX,
            n + rest@.len() == vs.len(),
            rest@ == vs.subrange(n as int, vs.len() as int),
            out@.len() == n,
            sorted_by_title(out@),
            forall|i: int| 0 <= i < out@.len() ==> exists|j: int| 0 <= j < n && #[trigger] out@[i] == vs[j],
            forall|j: int| 0 <= j < n ==> out@.contains(#[trigger] vs[j]),
        decreases rest@.len(),
    {
        let x = rest.remove(0);
        assert(x == vs[n as int]);
        assert(rest@ =~= vs.subrange(n + 1, vs.len() as int));
        let xt = chars_of(x.title.as_str());
        let mut j: usize = 0;
        while j < out.len() && !less_than(&xt, &chars_of(out[j].title.as_str()))
            invariant
                j <= out@.len(),
                xt@ == x.title@,
                forall|i: int| 0 <= i < j ==> !lex_lt(x.title@, (#[trigger] out@[i]).title@),
            decreases out@.len() - j,
        {
            j = j + 1;
        }
        let ghost old_out = out@;
        proof {
            assert forall|i: int| j <= i < old_out.len() implies !lex_lt((#[trigger] old_out[i]).title@, x.title@) by {
                assert(lex_lt(x.title@, old_out[j as int].title@));
                if i > j {
                    assert(!lex_lt(old_out[i].title@, old_out[j as int].title@));
                    lemma_lex_total(old_out[i].title@, old_out[j as int].title@);
                    if old_out[i].title@ != old_out[j as int].title@ {
                        crate::text::lemma_lex_transitive(x.title@, old_out[j as int].title@, old_out[i].title@);
                        crate::text::lemma_lex_asymmetric(x.title@, old_out[i].title@);
                    } else {
                        crate::text::lemma_lex_asymmetric(x.title@, old_out[i].title@);
                    }
                } else {
                    crate::text::lemma_lex_asymmetric(x.title@, old_out[i].title@);
                }
            }
        }
        out.insert(j, x);
        proof {
            let o = out@;
            assert(o == old_out.insert(j as int, x));
            assert forall|a: int, b: int| 0 <= a < b < o.len() implies !lex_lt(
                (#[trigger] o[b]).title@,
                (#[trigger] o[a]).title@,
            ) by {
                if a < j && b < j {
                    assert(o[a] == old_out[a] && o[b] == old_out[b]);
                } else if a < j && b == j {
                    assert(o[a] == old_out[a]);
                } else if a < j && b > j {
                    assert(o[a] == old_out[a] && o[b] == old_out[b - 1]);
                } else if a == j {
                    assert(o[b] == old_out[b - 1]);
                } else {
                    assert(o[a] == old_out[a - 1] && o[b] == old_out[b - 1]);
                }
            }
            assert forall|i: int| 0 <= i < o.len() implies exists|w: int|
                0 <= w < n + 1 && #[trigger] o[i] == vs[w] by {
                if i < j {
                    assert(o[i] == old_out[i]);
                } else if i == j {
                    assert(o[i] == vs[n as int]);
                } else {
                    assert(o[i] == old_out[i - 1]);
                }
            }
            assert forall|w: int| 0 <= w < n + 1 implies o.contains(#[trigger] vs[w]) by {
                if w < n {
                    assert(old_out.contains(vs[w]));
                    let i = choose|i: int| 0 <= i < old_out.len() && old_out[i] == vs[w];
                    if i < j {
                        assert(o[i] == vs[w]);
                    } else {
                        assert(o[i + 1] == vs[w]);
                    }
                } else {
                    assert(o[j as int] == vs[w]);
                }
            }
        }
        n = n + 1;
    }
    proof {
        assert forall|i: int| 0 <= i < out@.len() implies vs.contains(#[trigger] out@[i]) by {
            let w = choose|w: int| 0 <= w < n && out@[i] == vs[w];
        }
    }
    out
}

pub open spec fn different_message() -> Seq<char> {
    "source and target profiles must be different"@
}

pub open spec fn unavailable_message() -> Seq<char> {
    "source or target CODEX_HOME is unavailable"@
}

/// A plain absolute path: it starts with one `/` and holds no backslash or `:`, so that it has the
/// same components on every platform std supports.
pub open spec fn plain_absolute(p: Seq<char>) -> bool {
    p.len() >= 2 && p[0] == '/' && p[1] != '/' && !p.contains('\\') && !p.contains(':')
}

/// A path with each run of `/` written as one.
pub open spec fn squeezed(s: Seq<char>) -> Seq<char>
    decreases s.len(),
{
    if s.len() == 0 {
        s
    } else {
        let t = squeezed(s.drop_last());
        if s.last() == '/' && t.len() > 0 && t.last() == '/' {
            t
        } else {
            t.push(s.last())
        }
    }
}

/// A path with each run of `/` written as one and no trailing `/` (but for the root).
pub open spec fn slash_normal(s: Seq<char>) -> Seq<char> {
    let t = squeezed(s);
    if t.len() > 1 && t.last() == '/' {
        t.drop_last()
    } else {
        t
    }
}

/// `Path == Path` on two path texts, which compares their components. Equal texts name the
/// same path, and so do two plain absolute paths that differ only in runs of `/` and a
/// trailing `/`; the comparison of other texts depends on the platform and is not stated.
#[verifier::external_body]
fn same_path(a: &str, b: &str) -> (r: bool)
    ensures
        a@ == b@ ==> r,
        plain_absolute(a@) && plain_absolute(b@) && slash_normal(a@) == slash_normal(b@) ==> r,
{
    std::path::Path::new(a) == std::path::Path::new(b)
}

/// What checking a pair of profiles gives: a sync needs two different profiles whose homes
/// are not the same path (`same_home`), and both homes available.
pub open spec fn pair_checked(
    r: Result<(), AppError>,
    source: Profile,
    target: Profile,
    same_home: bool,
    homes_available: bool,
) -> bool {
    if source.id@ == target.id@ || same_home {
        r matches Err(e) && e is Message && e.text() == different_message()
    } else if !homes_available {
        r matches Err(e) && e is InvalidPath && e.text() == unavailable_message()
    } else {
        r is Ok
    }
}

/// A sync needs two different profiles with different homes, both available. `same_home`
/// says whether the two homes are one path.
pub fn validate_pair(source: &Profile, target: &Profile, same_home: bool, homes_available: bool) -> (r: Result<
    (),
    AppError,
>)
    ensures
        pair_checked(r, *source, *target, same_home, homes_available),
{
    if str_eq(source.id.as_str(), target.id.as_str()) || same_home {
        return Err(AppError::Message("source and target profiles must be different".to_string()));
    }
    if !homes_available {
        return Err(AppError::InvalidPath("source or target CODEX_HOME is unavailable".to_string()));
    }
    Ok(())
}

pub open spec fn plan_backup(x: Seq<char>, sources: Seq<ThreadSnapshot>, targets: Seq<ThreadSnapshot>) -> nat {
    let si = first_snapshot(sources, x);
    let a = sync_plan(x, sources, targets).0;
    if si >= 0 && (a == SyncAction::Update || a == SyncAction::Conflict) {
        sources[si].size_bytes as nat
    } else {
        0
    }
}

/// The bytes backed up before a sync of the given ids overwrites target sessions.
pub open spec fn backup_total(
    xs: Seq<Seq<char>>,
    sources: Seq<ThreadSnapshot>,
    targets: Seq<ThreadSnapshot>,
) -> nat
    decreases xs.len(),
{
    if xs.len() == 0 {
        0
    } else {
        backup_total(xs.drop_last(), sources, targets) + plan_backup(xs.last(), sources, targets)
    }
}

pub proof fn lemma_backup_prefix(
    xs: Seq<Seq<char>>,
    n: int,
    sources: Seq<ThreadSnapshot>,
    targets: Seq<ThreadSnapshot>,
)
    requires
        0 <= n <= xs.len(),
    ensures
        backup_total(xs.subrange(0, n), sources, targets) <= backup_total(xs, sources, targets),
    decreases xs.len() - n,
{
    if n < xs.len() {
        lemma_backup_prefix(xs, n + 1, sources, targets);
        assert(xs.subrange(0, n + 1).drop_last() =~= xs.subrange(0, n));
    } else {
        assert(xs.subrange(0, n) =~= xs);
    }
}

/// The number of selected ids whose action satisfies `pred`.
pub open spec fn count_plans(
    xs: Seq<Seq<char>>,
    sources: Seq<ThreadSnapshot>,
    targets: Seq<ThreadSnapshot>,
    pred: spec_fn(SyncAction) -> bool,
) -> nat
    decreases xs.len(),
{
    if xs.len() == 0 {
        0
    } else {
        count_plans(xs.drop_last(), sources, targets, pred) + if pred(
            sync_plan(xs.last(), sources, targets).0,
        ) {
            1nat
        } else {
            0nat
        }
    }
}

pub open spec fn is_skip(a: SyncAction) -> bool {
    a == SyncAction::SkipIdentical || a == SyncAction::SkipTargetAhead || a == SyncAction::Invalid
}

/// The plan of each distinct selected id, in the order first selected, with the counts of
/// copies, updates, conflicts and skips and the bytes to back up.
#[verifier::rlimit(40)]
fn plan_sync_items(
    selected_ids: &Vec<String>,
    source_snapshots: &Vec<ThreadSnapshot>,
    target_snapshots: &Vec<ThreadSnapshot>,
) -> (r: (Vec<SyncPlanItem>, usize, usize, usize, usize, u64))
    requires
        backup_total(distinct_ids(selected_ids@), source_snapshots@, target_snapshots@)
            <= u64::MAX,
    ensures
        ({
            let xs = distinct_ids(selected_ids@);
            let (ss, ts) = (source_snapshots@, target_snapshots@);
            &&& r.0@.len() == xs.len()
            &&& forall|k: int| 0 <= k < r.0@.len() ==> sync_item_ok(#[trigger] r.0@[k], xs[k], ss, ts)
            &&& r.1 == count_plans(xs, ss, ts, |a: SyncAction| a == SyncAction::Copy)
            &&& r.2 == count_plans(xs, ss, ts, |a: SyncAction| a == SyncAction::Update)
            &&& r.3 == count_plans(xs, ss, ts, |a: SyncAction| a == SyncAction::Conflict)
            &&& r.4 == count_plans(xs, ss, ts, |a: SyncAction| is_skip(a))
            &&& r.5 == backup_total(xs, ss, ts)
        }),
{
    let ghost xs = distinct_ids(selected_ids@);
    let ghost ss = source_snapshots@;
    let ghost ts = target_snapshots@;
    let ghost cp = |a: SyncAction| a == SyncAction::Copy;
    let ghost up = |a: SyncAction| a == SyncAction::Update;
    let ghost kp = |a: SyncAction| a == SyncAction::Conflict;
    let ghost sp = |a: SyncAction| is_skip(a);
    let mut items: Vec<SyncPlanItem> = Vec::new();
    let mut seen: Vec<String> = Vec::new();
    let mut copy_count: usize = 0;
    let mut update_count: usize = 0;
    let mut conflict_count: usize = 0;
    let mut skip_count: usize = 0;
    let mut backup: u64 = 0;
    let mut n: usize = 0;
    while n < selected_ids.len()
        invariant
            n <= selected_ids.len(),
            xs == distinct_ids(selected_ids@),
            ss == source_snapshots@,
            ts == target_snapshots@,
            cp == (|a: SyncAction| a == SyncAction::Copy),
            up == (|a: SyncAction| a == SyncAction::Update),
            kp == (|a: SyncAction| a == SyncAction::Conflict),
            sp == (|a: SyncAction| is_skip(a)),
            backup_total(xs, ss, ts) <= u64::MAX,
            seen@.len() == items@.len(),
            items@.len() <= n,
            distinct_ids(selected_ids@.subrange(0, n as int)).len() == items@.len(),
            forall|k: int|
                0 <= k < seen@.len() ==> (#[trigger] seen@[k])@ == distinct_ids(
                    selected_ids@.subrange(0, n as int),
                )[k],
            forall|k: int|
                0 <= k < items@.len() ==> sync_item_ok(
                    #[trigger] items@[k],
                    distinct_ids(selected_ids@.subrange(0, n as int))[k],
                    ss,
                    ts,
                ),
            copy_count == count_plans(distinct_ids(selected_ids@.subrange(0, n as int)), ss, ts, cp),
            update_count == count_plans(distinct_ids(selected_ids@.subrange(0, n as int)), ss, ts, up),
            conflict_count == count_plans(distinct_ids(selected_ids@.subrange(0, n as int)), ss, ts, kp),
            skip_count == count_plans(distinct_ids(selected_ids@.subrange(0, n as int)), ss, ts, sp),
            copy_count + update_count + conflict_count + skip_count <= items@.len(),
            backup == backup_total(distinct_ids(selected_ids@.subrange(0, n as int)), ss, ts),
            backup_total(distinct_ids(selected_ids@.subrange(0, n as int)), ss, ts) <= backup_total(
                xs,
                ss,
                ts,
            ),
        decreases selected_ids.len() - n,
    {
        let id = &selected_ids[n];
        let ghost d = distinct_ids(selected_ids@.subrange(0, n as int));
        proof {
            assert(selected_ids@.subrange(0, n + 1).drop_last() =~= selected_ids@.subrange(
                0,
                n as int,
            ));
        }
        let dup = contains_text(&seen, id);
        proof {
            if dup {
                let j = choose|j: int| 0 <= j < seen@.len() && (#[trigger] seen@[j])@ == id@;
                assert(d[j] == id@);
                assert(d.contains(id@));
            } else {
                if d.contains(id@) {
                    let j = choose|j: int| 0 <= j < d.len() && d[j] == id@;
                    assert(seen@[j]@ == id@);
                }
            }
        }
        if !dup {
            let item = plan_sync_one(id, source_snapshots, target_snapshots);
            let ghost d2 = distinct_ids(selected_ids@.subrange(0, n + 1));
            proof {
                assert(d2 == d.push(id@));
                assert(d2.drop_last() =~= d);
                lemma_distinct_prefix(selected_ids@, n + 1);
                assert(d2 == xs.subrange(0, d2.len() as int));
                lemma_backup_prefix(xs, d2.len() as int, ss, ts);
                assert(backup_total(d2, ss, ts) == backup_total(d, ss, ts) + plan_backup(id@, ss, ts));
                lemma_first_snapshot_bounds(ss, id@);
            }
            match item.action {
                SyncAction::Copy => {
                    copy_count = copy_count + 1;
                },
                SyncAction::Update => {
                    update_count = update_count + 1;
                    backup = backup + item.size_bytes;
                },
                SyncAction::Conflict => {
                    conflict_count = conflict_count + 1;
                    backup = backup + item.size_bytes;
                },
                _ => {
                    skip_count = skip_count + 1;
                },
            }
            items.push(item);
            seen.push(id.clone());
            proof {
                assert forall|k: int| 0 <= k < items@.len() implies sync_item_ok(
                    #[trigger] items@[k],
                    d2[k],
                    ss,
                    ts,
                ) by {
                    if k < d.len() {
                        assert(d2[k] == d[k]);
                    }
                }
                assert forall|k: int| 0 <= k < seen@.len() implies (#[trigger] seen@[k])@ == d2[k] by {
                    if k < d.len() {
                        assert(d2[k] == d[k]);
                    }
                }
            }
        }
        n = n + 1;
    }
    assert(selected_ids@.subrange(0, selected_ids@.len() as int) =~= selected_ids@);
    (items, copy_count, update_count, conflict_count, skip_count, backup)
}

/// The sync preview from `source` into `target` for the selected ids, given both
/// profiles' threads: one item per distinct id, ordered by title, with the counts of copies,
/// updates, skips and conflicts and the bytes to back up.
pub fn preview(
    source: &Profile,
    target: &Profile,
    selected_ids: &Vec<String>,
    source_snapshots: &Vec<ThreadSnapshot>,
    target_snapshots: &Vec<ThreadSnapshot>,
    homes_available: bool,
) -> (r: Result<SyncPreview, AppError>)
    requires
        backup_total(distinct_ids(selected_ids@), source_snapshots@, target_snapshots@)
            <= u64::MAX,
    ensures
        source.id@ == target.id@ || source.codex_home@ == target.codex_home@ ==> r is Err && r->Err_0
            is Message,
        plain_absolute(source.codex_home@) && plain_absolute(target.codex_home@) && slash_normal(source.codex_home@)
            == slash_normal(target.codex_home@) ==> r is Err && r->Err_0 is Message,
        r is Ok ==> source.id@ != target.id@ && source.codex_home@ != target.codex_home@
            && homes_available,
        r matches Err(e) ==> (e is Message && e.text() == different_message()) || (e is InvalidPath
            && e.text() == unavailable_message() && !homes_available),
        source.id@ != target.id@ && !homes_available ==> r is Err,
        r matches Ok(p) ==> {
            let xs = distinct_ids(selected_ids@);
            let (ss, ts) = (source_snapshots@, target_snapshots@);
            &&& p.source_profile_id == source.id
            &&& p.target_profile_id == target.id
            &&& p.items@.len() == xs.len()
            &&& forall|k: int| 0 <= k < p.items@.len() ==> item_for_some(#[trigger] p.items@[k], xs, ss, ts)
            &&& forall|j: int| 0 <= j < xs.len() ==> some_item_for(p.items@, #[trigger] xs[j], ss, ts)
            &&& sorted_by_title(p.items@)
            &&& p.copy_count == count_plans(xs, ss, ts, |a: SyncAction| a == SyncAction::Copy)
            &&& p.update_count == count_plans(xs, ss, ts, |a: SyncAction| a == SyncAction::Update)
            &&& p.conflict_count == count_plans(xs, ss, ts, |a: SyncAction| a == SyncAction::Conflict)
            &&& p.skip_count == count_plans(xs, ss, ts, |a: SyncAction| is_skip(a))
            &&& p.backup_bytes == backup_total(xs, ss, ts)
        },
{
    let same_home = same_path(source.codex_home.as_str(), target.codex_home.as_str());
    match validate_pair(source, target, same_home, homes_available) {
        Ok(()) => {},
        Err(e) => return Err(e),
    }
    let ghost xs = distinct_ids(selected_ids@);
    let ghost ss = source_snapshots@;
    let ghost ts = target_snapshots@;
    let (items, copy_count, update_count, conflict_count, skip_count, backup) = plan_sync_items(
        selected_ids,
        source_snapshots,
        target_snapshots,
    );
    let ghost unsorted = items@;
    let sorted = sort_by_title(items);
    proof {
        lemma_permuted_items(unsorted, sorted@, xs, ss, ts);
    }
    Ok(
        SyncPreview {
            source_profile_id: source.id.clone(),
            target_profile_id: target.id.clone(),
            items: sorted,
            copy_count,
            update_count,
            skip_count,
            conflict_count,
            backup_bytes: backup,
        },
    )
}

pub proof fn lemma_permuted_items(
    unsorted: Seq<SyncPlanItem>,
    sorted: Seq<SyncPlanItem>,
    xs: Seq<Seq<char>>,
    ss: Seq<ThreadSnapshot>,
    ts: Seq<ThreadSnapshot>,
)
    requires
        unsorted.len() == xs.len(),
        forall|k: int| 0 <= k < unsorted.len() ==> sync_item_ok(#[trigger] unsorted[k], xs[k], ss, ts),
        forall|i: int| 0 <= i < sorted.len() ==> unsorted.contains(#[trigger] sorted[i]),
        forall|j: int| 0 <= j < unsorted.len() ==> sorted.contains(#[trigger] unsorted[j]),
    ensures
        forall|k: int| 0 <= k < sorted.len() ==> item_for_some(#[trigger] sorted[k], xs, ss, ts),
        forall|j: int| 0 <= j < xs.len() ==> some_item_for(sorted, #[trigger] xs[j], ss, ts),
{
    assert forall|k: int| 0 <= k < sorted.len() implies item_for_some(#[trigger] sorted[k], xs, ss, ts) by {
        assert(unsorted.contains(sorted[k]));
        let j = choose|j: int| 0 <= j < unsorted.len() && unsorted[j] == sorted[k];
        assert(sync_item_ok(unsorted[j], xs[j], ss, ts));
    }
    assert forall|j: int| 0 <= j < xs.len() implies some_item_for(sorted, #[trigger] xs[j], ss, ts) by {
        assert(sync_item_ok(unsorted[j], xs[j], ss, ts));
        assert(sorted.contains(unsorted[j]));
        let k = choose|k: int| 0 <= k < sorted.len() && sorted[k] == unsorted[j];
        assert(sync_item_ok(sorted[k], xs[j], ss, ts));
    }
}

/// The item is the plan of one of the selected ids.
pub open spec fn item_for_some(
    item: SyncPlanItem,
    xs: Seq<Seq<char>>,
    ss: Seq<ThreadSnapshot>,
    ts: Seq<ThreadSnapshot>,
) -> bool {
    exists|j: int| 0 <= j < xs.len() && sync_item_ok(item, #[trigger] xs[j], ss, ts)
}

/// Some item is the plan of the id.
pub open spec fn some_item_for(
    items: Seq<SyncPlanItem>,
    x: Seq<char>,
    ss: Seq<ThreadSnapshot>,
    ts: Seq<ThreadSnapshot>,
) -> bool {
    exists|k: int| 0 <= k < items.len() && sync_item_ok(#[trigger] items[k], x, ss, ts)
}

pub proof fn lemma_first_snapshot_bounds(v: Seq<ThreadSnapshot>, id: Seq<char>)
    ensures
        -1 <= first_snapshot(v, id) < v.len(),
        first_snapshot(v, id) >= 0 ==> v[first_snapshot(v, id)].thread_id@ == id,
    decreases v.len(),
{
    if v.len() > 0 && v[0].thread_id@ != id {
        lemma_first_snapshot_bounds(v.drop_first(), id);
    }
}

/// The distinct ids of a prefix are a prefix of the distinct ids.
pub proof fn lemma_distinct_prefix(ids: Seq<String>, n: int)
    requires
        0 <= n <= ids.len(),
    ensures
        distinct_ids(ids.subrange(0, n)).len() <= distinct_ids(ids).len(),
        distinct_ids(ids.subrange(0, n)) == distinct_ids(ids).subrange(
            0,
            distinct_ids(ids.subrange(0, n)).len() as int,
        ),
    decreases ids.len() - n,
{
    if n < ids.len() {
        lemma_distinct_prefix(ids, n + 1);
        let a = distinct_ids(ids.subrange(0, n));
        let b = distinct_ids(ids.subrange(0, n + 1));
        assert(ids.subrange(0, n + 1).drop_last() =~= ids.subrange(0, n));
        assert(b.subrange(0, a.len() as int) =~= a);
        assert(distinct_ids(ids).subrange(0, a.len() as int) =~= b.subrange(0, a.len() as int));
    } else {
        assert(ids.subrange(0, n) =~= ids);
        assert(distinct_ids(ids).subrange(0, distinct_ids(ids).len() as int) =~= distinct_ids(ids));
    }
}

// ---------------------------------------------------------------------------
// Carrying out a sync
// ---------------------------------------------------------------------------

/// The items a sync writes: copies and updates, and conflicts when they are to be
/// overwritten.
pub open spec fn executes(a: SyncAction, overwrite_conflicts: bool) -> bool {
    a == SyncAction::Copy || a == SyncAction::Update || (overwrite_conflicts && a
        == SyncAction::Conflict)
}

pub open spec fn executable(items: Seq<SyncPlanItem>, overwrite_conflicts: bool) -> Seq<SyncPlanItem> {
    items.filter(|i: SyncPlanItem| executes(i.action, overwrite_conflicts))
}

fn copy_plan_item(i: &SyncPlanItem) -> (r: SyncPlanItem)
    ensures
        r == *i,
{
    SyncPlanItem {
        thread_id: i.thread_id.clone(),
        title: i.title.clone(),
        action: i.action,
        reason: i.reason.clone(),
        source_sha256: i.source_sha256.clone(),
        target_sha256: clone_opt(&i.target_sha256),
        size_bytes: i.size_bytes,
    }
}

fn executes_action(a: SyncAction, overwrite_conflicts: bool) -> (r: bool)
    ensures
        r == executes(a, overwrite_conflicts),
{
    match a {
        SyncAction::Copy | SyncAction::Update => true,
        SyncAction::Conflict => overwrite_conflicts,
        _ => false,
    }
}

/// The items of a preview that a sync writes, in order.
pub fn executable_items(items: &Vec<SyncPlanItem>, overwrite_conflicts: bool) -> (r: Vec<SyncPlanItem>)
    ensures
        r@ == executable(items@, overwrite_conflicts),
{
    let ghost pred = |i: SyncPlanItem| executes(i.action, overwrite_conflicts);
    let mut out: Vec<SyncPlanItem> = Vec::new();
    let mut k: usize = 0;
    while k < items.len()
        invariant
            k <= items@.len(),
            pred == (|i: SyncPlanItem| executes(i.action, overwrite_conflicts)),
            out@ == items@.subrange(0, k as int).filter(pred),
        decreases items@.len() - k,
    {
        proof {
            assert(items@.subrange(0, k + 1) =~= items@.subrange(0, k as int).push(items@[k as int]));
            items@.subrange(0, k as int).lemma_filter_push(items@[k as int], pred);
        }
        if executes_action(items[k].action, overwrite_conflicts) {
            out.push(copy_plan_item(&items[k]));
        }
        k = k + 1;
    }
    assert(items@.subrange(0, items@.len() as int) =~= items@);
    out
}

/// The hashes recorded once a written session is verified in the target.
#[derive(Debug)]
pub struct SyncBaseline {
    pub thread_id: String,
    pub source_sha256: String,
    pub target_sha256: String,
}

/// The first written item that the rescanned target does not hold with the source's content
/// hash, or -1.
pub open spec fn first_unverified(xs: Seq<SyncPlanItem>, refreshed: Seq<ThreadSnapshot>) -> int
    decreases xs.len(),
{
    if xs.len() == 0 {
        -1
    } else {
        let t = first_snapshot(refreshed, xs[0].thread_id@);
        if t < 0 || refreshed[t].content_sha256@ != xs[0].source_sha256@ {
            0
        } else {
            let k = first_unverified(xs.drop_first(), refreshed);
            if k < 0 {
                -1
            } else {
                k + 1
            }
        }
    }
}

pub open spec fn unverified_text(item: SyncPlanItem, refreshed: Seq<ThreadSnapshot>) -> Seq<char> {
    if first_snapshot(refreshed, item.thread_id@) < 0 {
        "target verification failed for "@ + item.thread_id@
    } else {
        "target hash verification failed for "@ + item.thread_id@
    }
}

/// The baseline recorded for a written item: its content hash in the rescanned target.
pub open spec fn baseline_of(b: SyncBaseline, item: SyncPlanItem, refreshed: Seq<ThreadSnapshot>) -> bool {
    &&& b.thread_id == item.thread_id
    &&& b.source_sha256 == item.source_sha256
    &&& b.target_sha256 == refreshed[first_snapshot(refreshed, item.thread_id@)].content_sha256
}

/// Checks the written items against the target as scanned after the sync: each must be
/// there with the source's content hash. The baselines to record, one per written item in
/// order; or the error for the first that fails.
pub fn verify_synced(
    items: &Vec<SyncPlanItem>,
    overwrite_conflicts: bool,
    refreshed: &Vec<ThreadSnapshot>,
) -> (r: Result<Vec<SyncBaseline>, AppError>)
    ensures
        ({
            let xs = executable(items@, overwrite_conflicts);
            let k = first_unverified(xs, refreshed@);
            &&& r is Err <==> k >= 0
            &&& r matches Err(e) ==> e is InvalidSession && e.text() == unverified_text(xs[k], refreshed@)
            &&& r matches Ok(v) ==> v@.len() == xs.len() && forall|j: int|
                0 <= j < v@.len() ==> baseline_of(#[trigger] v@[j], xs[j], refreshed@)
        }),
{
    let xs = executable_items(items, overwrite_conflicts);
    let mut out: Vec<SyncBaseline> = Vec::new();
    let mut i: usize = 0;
    assert(xs@.skip(0) =~= xs@);
    while i < xs.len()
        invariant
            i <= xs@.len(),
            xs@ == executable(items@, overwrite_conflicts),
            out@.len() == i,
            first_unverified(xs@, refreshed@) == if first_unverified(xs@.skip(i as int), refreshed@) < 0 {
                -1
            } else {
                first_unverified(xs@.skip(i as int), refreshed@) + i
            },
            forall|j: int| 0 <= j < i ==> baseline_of(#[trigger] out@[j], xs@[j], refreshed@),
        decreases xs@.len() - i,
    {
        assert(xs@.skip(i as int).drop_first() =~= xs@.skip(i + 1));
        assert(xs@.skip(i as int)[0] == xs@[i as int]);
        let item = &xs[i];
        let t = match find_first(refreshed, item.thread_id.as_str()) {
            Some(t) => t,
            None => {
                let m = concat(&lit("target verification failed for "), &chars_of(item.thread_id.as_str()));
                return Err(AppError::InvalidSession(to_text(&m)));
            },
        };
        proof {
            lemma_first_snapshot_bounds(refreshed@, item.thread_id@);
        }
        if !str_eq(refreshed[t].content_sha256.as_str(), item.source_sha256.as_str()) {
            let m = concat(&lit("target hash verification failed for "), &chars_of(item.thread_id.as_str()));
            return Err(AppError::InvalidSession(to_text(&m)));
        }
        let ghost before = out@;
        out.push(
            SyncBaseline {
                thread_id: item.thread_id.clone(),
                source_sha256: item.source_sha256.clone(),
                target_sha256: refreshed[t].content_sha256.clone(),
            },
        );
        proof {
            assert(first_snapshot(refreshed@, xs@[i as int].thread_id@) == t as int);
            assert forall|j: int| 0 <= j < i + 1 implies baseline_of(#[trigger] out@[j], xs@[j], refreshed@) by {
                if j < i {
                    assert(out@[j] == before[j]);
                }
            }
        }
        i = i + 1;
    }
    Ok(out)
}

/// How many items have the given action.
pub open spec fn count_action(items: Seq<SyncPlanItem>, a: SyncAction) -> nat {
    items.filter(|i: SyncPlanItem| i.action == a).len()
}

/// The counts a finished sync reports.
#[derive(Debug)]
pub struct SyncCounts {
    pub copied: usize,
    pub updated: usize,
    pub skipped: usize,
    pub conflicts: usize,
}

fn count_of(items: &Vec<SyncPlanItem>, a: SyncAction) -> (r: usize)
    ensures
        r == count_action(items@, a),
{
    let ghost pred = |i: SyncPlanItem| i.action == a;
    let mut n: usize = 0;
    let mut k: usize = 0;
    while k < items.len()
        invariant
            k <= items@.len(),
            pred == (|i: SyncPlanItem| i.action == a),
            n == items@.subrange(0, k as int).filter(pred).len(),
            n <= k,
        decreases items@.len() - k,
    {
        proof {
            assert(items@.subrange(0, k + 1) =~= items@.subrange(0, k as int).push(items@[k as int]));
            items@.subrange(0, k as int).lemma_filter_push(items@[k as int], pred);
        }
        if items[k].action == a {
            n = n + 1;
        }
        k = k + 1;
    }
    assert(items@.subrange(0, items@.len() as int) =~= items@);
    n
}

/// The counts of a sync whose writes all succeeded: copies, updates (overwritten conflicts
/// among them), conflicts left alone, and the rest skipped.
pub fn sync_counts(items: &Vec<SyncPlanItem>, overwrite_conflicts: bool) -> (r: SyncCounts)
    ensures
        r.copied == count_action(items@, SyncAction::Copy),
        r.updated == count_action(items@, SyncAction::Update) + if overwrite_conflicts {
            count_action(items@, SyncAction::Conflict)
        } else {
            0
        },
        r.conflicts == if overwrite_conflicts {
            0
        } else {
            count_action(items@, SyncAction::Conflict)
        },
        r.skipped == items@.len() - (r.copied + r.updated + r.conflicts),
{
    let total = items.len();
    let copied = count_of(items, SyncAction::Copy);
    let updates = count_of(items, SyncAction::Update);
    let conflicts = count_of(items, SyncAction::Conflict);
    proof {
        lemma_counts_bounded(items@);
        assert(copied + updates + conflicts <= total);
    }
    let (updated, left) = if overwrite_conflicts {
        (updates + conflicts, 0)
    } else {
        (updates, conflicts)
    };
    SyncCounts { copied, updated, skipped: total - (copied + updated + left), conflicts: left }
}

pub proof fn lemma_counts_bounded(items: Seq<SyncPlanItem>)
    ensures
        count_action(items, SyncAction::Copy) + count_action(items, SyncAction::Update)
            + count_action(items, SyncAction::Conflict) <= items.len(),
    decreases items.len(),
{
    if items.len() > 0 {
        let rest = items.drop_last();
        assert(items =~= rest.push(items.last()));
        rest.lemma_filter_push(items.last(), |i: SyncPlanItem| i.action == SyncAction::Copy);
        rest.lemma_filter_push(items.last(), |i: SyncPlanItem| i.action == SyncAction::Update);
        rest.lemma_filter_push(items.last(), |i: SyncPlanItem| i.action == SyncAction::Conflict);
        lemma_counts_bounded(rest);
    }
}

pub open spec fn rollback_failed_text(
    stage: Seq<char>,
    error: Seq<char>,
    rollback_error: Seq<char>,
    backup: Option<Seq<char>>,
) -> Seq<char> {
    stage + " failed: "@ + error + "; rollback also failed: "@ + rollback_error + ". Backup: "@
        + match backup {
        Some(b) => b,
        None => "not created"@,
    }
}

/// The error of a sync whose writes (`verifying` false) or verification (`verifying` true)
/// failed, once the target was rolled back: the failure itself when the rollback worked,
/// otherwise both, with where the backup is.
pub fn failed_sync_error(
    error: AppError,
    rollback: Result<(), AppError>,
    backup: &Option<String>,
    verifying: bool,
) -> (r: AppError)
    ensures
        match rollback {
            Ok(()) => r == error,
            Err(e) => r is Message && r.text() == rollback_failed_text(
                if verifying {
                    "verification"@
                } else {
                    "sync"@
                },
                error.text(),
                e.text(),
                opt_chars(*backup),
            ),
        },
{
    match rollback {
        Ok(()) => error,
        Err(e) => {
            let stage = if verifying {
                lit("verification failed: ")
            } else {
                lit("sync failed: ")
            };
            proof {
                assert(("verification"@ + " failed: "@) =~= "verification failed: "@) by {
                    reveal_strlit("verification");
                    reveal_strlit(" failed: ");
                    reveal_strlit("verification failed: ");
                }
                assert(("sync"@ + " failed: "@) =~= "sync failed: "@) by {
                    reveal_strlit("sync");
                    reveal_strlit(" failed: ");
                    reveal_strlit("sync failed: ");
                }
            }
            let a = concat(&stage, &chars_of(error.message().as_str()));
            let b = concat(&concat(&a, &lit("; rollback also failed: ")), &chars_of(e.message().as_str()));
            let c = concat(&b, &lit(". Backup: "));
            let d = match backup {
                Some(p) => concat(&c, &chars_of(p.as_str())),
                None => concat(&c, &lit("not created")),
            };
            AppError::Message(to_text(&d))
        },
    }
}


// ---------------------------------------------------------------------------
// Where a synced session is written
// ---------------------------------------------------------------------------

pub open spec fn outside_home_text(rollout: Seq<char>) -> Seq<char> {
    "source rollout is outside its CODEX_HOME: "@ + rollout
}

/// Where a synced session is written in the target home: over the target's own rollout of
/// the thread (`existing`) where it has one; otherwise at the source rollout's place under
/// its home (the text after the source home and the separators that follow it), under the
/// target home. A source rollout outside its home has no place.
pub open spec fn sync_target_path(
    existing: Option<Seq<char>>,
    rollout: Seq<char>,
    source_home: Seq<char>,
    target_home: Seq<char>,
    os: Os,
) -> Option<Seq<char>> {
    match existing {
        Some(p) => Some(p),
        None => {
            let h = trim_seps(os, source_home);
            if h.len() > 0 && has_prefix(rollout, h) && rollout.len() > h.len() && is_sep(os, rollout[h.len() as int]) {
                Some(join(os, target_home, trim_start_by(rollout.skip(h.len() as int), sep_pred(os))))
            } else {
                None
            }
        },
    }
}

/// The path a synced session is written to (see [`sync_target_path`]).
pub fn target_rollout_path(
    existing: Option<&str>,
    rollout: &str,
    source_home: &str,
    target_home: &str,
    os: Os,
) -> (r: Result<String, AppError>)
    ensures
        match r {
            Ok(p) => sync_target_path(opt_str(existing), rollout@, source_home@, target_home@, os) == Some(p@),
            Err(e) => sync_target_path(opt_str(existing), rollout@, source_home@, target_home@, os) is None
                && e is InvalidPath && e.text() == outside_home_text(rollout@),
        },
{
    if let Some(p) = existing {
        return Ok(p.to_string());
    }
    let r = chars_of(rollout);
    let h = trim_separators(os, &chars_of(source_home));
    if h.len() > 0 && starts_with(&r, &h) && r.len() > h.len() && is_separator(os, r[h.len()]) {
        let mut k: usize = h.len();
        while k < r.len() && is_separator(os, r[k])
            invariant
                h.len() <= k <= r.len(),
                forall|j: int| h.len() <= j < k ==> is_sep(os, #[trigger] r@[j]),
            decreases r.len() - k,
        {
            k = k + 1;
        }
        let rest = slice_of(&r, k, r.len());
        proof {
            let s = r@.skip(h@.len() as int);
            assert forall|j: int| 0 <= j < k - h.len() implies (sep_pred(os))(#[trigger] s[j]) by {
                assert(s[j] == r@[j + h.len()]);
            }
            if k < r.len() {
                assert(s[k - h.len()] == r@[k as int]);
            }
            lemma_trim_start_by(s, sep_pred(os), k - h.len());
            assert(s.skip(k - h.len()) =~= rest@);
        }
        let out = path_join(os, &chars_of(target_home), &rest);
        Ok(string_of(&out))
    } else {
        Err(AppError::InvalidPath(to_text(&concat(&lit("source rollout is outside its CODEX_HOME: "), &r))))
    }
}

pub open spec fn opt_str(o: Option<&str>) -> Option<Seq<char>> {
    match o {
        Some(t) => Some(t@),
        None => None,
    }
}

// ---------------------------------------------------------------------------
// The steps of a sync
// ---------------------------------------------------------------------------

/// What the caller reports after carrying out a step of a sync. `backup` is where the
/// target's sessions were backed up, when they were.
pub enum SyncPhase {
    Begin,
    /// The backup of the target sessions the sync overwrites: its directory, or the error.
    BackedUp { result: Result<String, AppError> },
    /// Written item `index` (of the written items, in order) was written, or failed.
    Written { backup: Option<String>, index: usize, result: Result<(), AppError> },
    /// The target was put back after `error`; `verifying` when the failure came after the
    /// writes.
    RolledBack { backup: Option<String>, error: AppError, verifying: bool, result: Result<(), AppError> },
    /// The official session index was rebuilt, or the error.
    IndexRebuilt { backup: Option<String>, result: Result<(), String> },
    /// The target's threads as scanned after the writes, or the scan's error.
    Rescanned { backup: Option<String>, warning: Option<String>, result: Result<Vec<ThreadSnapshot>, AppError> },
    /// The verified hashes were recorded, or the error.
    BaselinesSaved { backup: Option<String>, warning: Option<String>, result: Result<(), AppError> },
}

/// What a finished sync reports.
pub struct SyncOutcome {
    pub counts: SyncCounts,
    pub backup_dir: Option<String>,
    pub index_rebuilt: bool,
    pub warning: Option<String>,
}

/// What the caller does next in a sync.
pub enum SyncStep {
    /// Back up the target's copies of these items.
    BackUp { items: Vec<SyncPlanItem> },
    /// Copy the source session of written item `index` into the target, with the target's
    /// provider.
    Write { backup: Option<String>, index: usize, item: SyncPlanItem },
    /// Put the target's index, global state and rewritten rollouts back as they were.
    RollBack { backup: Option<String>, error: AppError, verifying: bool },
    RebuildIndex { backup: Option<String> },
    /// Scan the target again.
    Rescan { backup: Option<String>, warning: Option<String> },
    SaveBaselines { backup: Option<String>, warning: Option<String>, baselines: Vec<SyncBaseline> },
    Finished(Result<SyncOutcome, AppError>),
}

pub open spec fn counts_of(c: SyncCounts, items: Seq<SyncPlanItem>, overwrite_conflicts: bool) -> bool {
    &&& c.copied == count_action(items, SyncAction::Copy)
    &&& c.updated == count_action(items, SyncAction::Update) + if overwrite_conflicts {
        count_action(items, SyncAction::Conflict)
    } else {
        0
    }
    &&& c.conflicts == if overwrite_conflicts {
        0
    } else {
        count_action(items, SyncAction::Conflict)
    }
    &&& c.skipped == items.len() - (c.copied + c.updated + c.conflicts)
}

pub open spec fn rebuild_warning_text(e: Seq<char>) -> Seq<char> {
    "sessions were synchronized, but the official index rebuild failed: "@ + e
        + ". Restart the client to retry."@
}

/// The step after the writes: write the next item, or rebuild the index once all are written.
pub open spec fn write_or_rebuild(r: SyncStep, xs: Seq<SyncPlanItem>, backup: Option<String>, next: int) -> bool {
    if next < xs.len() {
        r matches SyncStep::Write { backup: b, index, item } && b == backup && index == next && item == xs[next]
    } else {
        r == SyncStep::RebuildIndex { backup }
    }
}

/// The step that follows `phase` in a sync of `plan`'s items.
pub open spec fn sync_step_ok(r: SyncStep, plan: SyncPreview, overwrite_conflicts: bool, phase: SyncPhase) -> bool {
    let xs = executable(plan.items@, overwrite_conflicts);
    match phase {
        SyncPhase::Begin => if xs.len() == 0 {
            r == SyncStep::RebuildIndex { backup: None }
        } else {
            r matches SyncStep::BackUp { items } && items@ == xs
        },
        SyncPhase::BackedUp { result } => match result {
            Err(e) => r == SyncStep::Finished(Err(e)),
            Ok(dir) => write_or_rebuild(r, xs, Some(dir), 0),
        },
        SyncPhase::Written { backup, index, result } => match result {
            Err(e) => r == SyncStep::RollBack { backup, error: e, verifying: false },
            Ok(()) => write_or_rebuild(r, xs, backup, index + 1),
        },
        SyncPhase::RolledBack { backup, error, verifying, result } => r matches SyncStep::Finished(Err(e))
            && match result {
            Ok(()) => e == error,
            Err(f) => e is Message && e.text() == rollback_failed_text(
                if verifying {
                    "verification"@
                } else {
                    "sync"@
                },
                error.text(),
                f.text(),
                opt_chars(backup),
            ),
        },
        SyncPhase::IndexRebuilt { backup, result } => match result {
            Ok(()) => r == SyncStep::Rescan { backup, warning: None },
            Err(e) => r matches SyncStep::Rescan { backup: b, warning: Some(w) } && b == backup && w@
                == rebuild_warning_text(e@),
        },
        SyncPhase::Rescanned { backup, warning, result } => match result {
            Err(e) => r == SyncStep::RollBack { backup, error: e, verifying: true },
            Ok(refreshed) => {
                let k = first_unverified(xs, refreshed@);
                if k >= 0 {
                    r matches SyncStep::RollBack { backup: b, error: e, verifying: true } && b == backup
                        && e is InvalidSession && e.text() == unverified_text(xs[k], refreshed@)
                } else {
                    &&& r matches SyncStep::SaveBaselines { backup: b, warning: w, baselines }
                    &&& b == backup && w == warning
                    &&& baselines@.len() == xs.len()
                    &&& forall|j: int| 0 <= j < baselines@.len() ==> baseline_of(#[trigger] baselines@[j], xs[j], refreshed@)
                }
            },
        },
        SyncPhase::BaselinesSaved { backup, warning, result } => match result {
            Err(e) => r == SyncStep::RollBack { backup, error: e, verifying: true },
            Ok(()) => {
                &&& r matches SyncStep::Finished(Ok(o))
                &&& counts_of(o.counts, plan.items@, overwrite_conflicts)
                &&& o.backup_dir == backup
                &&& o.index_rebuilt == (warning is None)
                &&& o.warning == warning
            },
        },
    }
}

fn next_write(xs: &Vec<SyncPlanItem>, backup: Option<String>, next: usize) -> (r: SyncStep)
    requires
        next <= xs@.len(),
    ensures
        write_or_rebuild(r, xs@, backup, next as int),
{
    if next < xs.len() {
        SyncStep::Write { backup, index: next, item: copy_plan_item(&xs[next]) }
    } else {
        SyncStep::RebuildIndex { backup }
    }
}

/// The next step of a sync of `plan`'s items into the target: back up what it overwrites,
/// write the items one by one, rebuild the official index, check every written item in the
/// rescanned target and record the hashes; any failure after the backup puts the target back.
pub fn sync_step(plan: &SyncPreview, overwrite_conflicts: bool, phase: SyncPhase) -> (r: SyncStep)
    ensures
        sync_step_ok(r, *plan, overwrite_conflicts, phase),
{
    let xs = executable_items(&plan.items, overwrite_conflicts);
    match phase {
        SyncPhase::Begin => if xs.len() == 0 {
            SyncStep::RebuildIndex { backup: None }
        } else {
            SyncStep::BackUp { items: xs }
        },
        SyncPhase::BackedUp { result } => match result {
            Err(e) => SyncStep::Finished(Err(e)),
            Ok(dir) => next_write(&xs, Some(dir), 0),
        },
        SyncPhase::Written { backup, index, result } => match result {
            Err(e) => SyncStep::RollBack { backup, error: e, verifying: false },
            Ok(()) => if index < xs.len() {
                next_write(&xs, backup, index + 1)
            } else {
                SyncStep::RebuildIndex { backup }
            },
        },
        SyncPhase::RolledBack { backup, error, verifying, result } => {
            let e = failed_sync_error(error, result, &backup, verifying);
            SyncStep::Finished(Err(e))
        },
        SyncPhase::IndexRebuilt { backup, result } => match result {
            Ok(()) => SyncStep::Rescan { backup, warning: None },
            Err(e) => {
                let w = concat(
                    &concat(
                        &lit("sessions were synchronized, but the official index rebuild failed: "),
                        &chars_of(e.as_str()),
                    ),
                    &lit(". Restart the client to retry."),
                );
                SyncStep::Rescan { backup, warning: Some(to_text(&w)) }
            },
        },
        SyncPhase::Rescanned { backup, warning, result } => match result {
            Err(e) => SyncStep::RollBack { backup, error: e, verifying: true },
            Ok(refreshed) => match verify_synced(&plan.items, overwrite_conflicts, &refreshed) {
                Err(e) => SyncStep::RollBack { backup, error: e, verifying: true },
                Ok(baselines) => SyncStep::SaveBaselines { backup, warning, baselines },
            },
        },
        SyncPhase::BaselinesSaved { backup, warning, result } => match result {
            Err(e) => SyncStep::RollBack { backup, error: e, verifying: true },
            Ok(()) => {
                let index_rebuilt = warning.is_none();
                SyncStep::Finished(
                    Ok(
                        SyncOutcome {
                            counts: sync_counts(&plan.items, overwrite_conflicts),
                            backup_dir: backup,
                            index_rebuilt,
                            warning,
                        },
                    ),
                )
            },
        },
    }
}

} // verus!
