//! The provider buckets of a Codex home and the sessions listed under each, as the
//! provider cards show them.
use vstd::prelude::*;

use crate::error::AppError;
use crate::models::{
    Profile, ProviderBucket, ProviderSessionRecord, ProviderWorkspaceSnapshot, ReplicaMapping,
};
use crate::replication::{
    eligibility, eligibility_of, interactive, is_interactive, is_official_provider, mapping_at,
    mapping_index, official, provider_or_unknown, provider_or_unknown_of, verified_status,
};
use crate::sessions::ThreadSnapshot;
use crate::text::{
    chars_of, clone_opt, is_blank, lemma_lex_asymmetric, lemma_lex_irreflexive, lemma_lex_total,
    lemma_lex_transitive, less_than, lex_lt, opt_chars, seq_eq, str_eq, };

verus! {

broadcast use vstd::string::group_string_axioms;

// ---------------------------------------------------------------------------
// Order of the cards
// ---------------------------------------------------------------------------

/// What `str::to_lowercase` returns for a text (full Unicode lower-casing).
pub uninterp spec fn unicode_lower(s: Seq<char>) -> Seq<char>;

/// `str::to_lowercase`.
#[verifier::external_body]
fn to_lowercase(s: &str) -> (r: String)
    ensures
        r@ == unicode_lower(s@),
{
    s.to_lowercase()
}

/// The official provider first, then the current one, then by lower-cased id, then by id.
pub open spec fn bucket_before(a: ProviderBucket, b: ProviderBucket) -> bool {
    let oa = official(a.provider_id@);
    let ob = official(b.provider_id@);
    let la = unicode_lower(a.provider_id@);
    let lb = unicode_lower(b.provider_id@);
    if oa != ob {
        oa
    } else if a.is_current != b.is_current {
        a.is_current
    } else if la != lb {
        lex_lt(la, lb)
    } else {
        lex_lt(a.provider_id@, b.provider_id@)
    }
}

/// The card order is transitive.
pub proof fn lemma_before_transitive(a: ProviderBucket, b: ProviderBucket, c: ProviderBucket)
    requires
        bucket_before(a, b),
        bucket_before(b, c),
    ensures
        bucket_before(a, c),
{
    let la = unicode_lower(a.provider_id@);
    let lb = unicode_lower(b.provider_id@);
    let lc = unicode_lower(c.provider_id@);
    if official(a.provider_id@) == official(b.provider_id@) && official(b.provider_id@) == official(
        c.provider_id@,
    ) && a.is_current == b.is_current && b.is_current == c.is_current {
        if la != lb && lb != lc {
            lemma_lex_transitive(la, lb, lc);
            if la == lc {
                lemma_lex_asymmetric(la, lb);
            }
        } else if la != lb {
            assert(lb == lc);
        } else if lb != lc {
            assert(la == lb);
        } else {
            lemma_lex_transitive(a.provider_id@, b.provider_id@, c.provider_id@);
        }
    }
}

/// Two cards of different providers are always ordered one way or the other.
pub proof fn lemma_before_total(a: ProviderBucket, b: ProviderBucket)
    requires
        a.provider_id@ != b.provider_id@,
    ensures
        bucket_before(a, b) || bucket_before(b, a),
{
    lemma_lex_total(unicode_lower(a.provider_id@), unicode_lower(b.provider_id@));
    lemma_lex_total(a.provider_id@, b.provider_id@);
}

/// No card comes before a card that comes before it.
pub proof fn lemma_before_asymmetric(a: ProviderBucket, b: ProviderBucket)
    requires
        bucket_before(a, b),
    ensures
        !bucket_before(b, a),
{
    let la = unicode_lower(a.provider_id@);
    let lb = unicode_lower(b.provider_id@);
    if la != lb {
        if lex_lt(la, lb) {
            lemma_lex_asymmetric(la, lb);
        }
    } else if lex_lt(a.provider_id@, b.provider_id@) {
        lemma_lex_asymmetric(a.provider_id@, b.provider_id@);
    }
}

pub proof fn lemma_before_same_id(a: ProviderBucket, b: ProviderBucket)
    requires
        a.provider_id@ == b.provider_id@,
        a.is_current == b.is_current,
    ensures
        !bucket_before(a, b),
{
    lemma_lex_irreflexive(a.provider_id@);
}

/// Whether card `a` comes before card `b` (see [`bucket_before`]).
pub fn bucket_precedes(a: &ProviderBucket, b: &ProviderBucket) -> (r: bool)
    ensures
        r == bucket_before(*a, *b),
{
    let oa = is_official_provider(a.provider_id.as_str());
    let ob = is_official_provider(b.provider_id.as_str());
    if oa != ob {
        return oa;
    }
    if a.is_current != b.is_current {
        return a.is_current;
    }
    let la = chars_of(to_lowercase(a.provider_id.as_str()).as_str());
    let lb = chars_of(to_lowercase(b.provider_id.as_str()).as_str());
    if !seq_eq(&la, &lb) {
        return less_than(&la, &lb);
    }
    less_than(&chars_of(a.provider_id.as_str()), &chars_of(b.provider_id.as_str()))
}

/// Cards in strictly increasing order.
pub open spec fn sorted_buckets(v: Seq<ProviderBucket>) -> bool {
    forall|i: int, j: int| 0 <= i < j < v.len() ==> bucket_before(#[trigger] v[i], #[trigger] v[j])
}

/// The cards put in order; each card is kept as it is.
pub fn sort_buckets(v: Vec<ProviderBucket>) -> (r: Vec<ProviderBucket>)
    requires
        forall|i: int, j: int|
            0 <= i < j < v@.len() ==> (#[trigger] v@[i]).provider_id@ != (#[trigger] v@[j]).provider_id@,
    ensures
        sorted_buckets(r@),
        forall|i: int| 0 <= i < r@.len() ==> v@.contains(#[trigger] r@[i]),
        forall|j: int| 0 <= j < v@.len() ==> r@.contains(#[trigger] v@[j]),
{
    let mut out: Vec<ProviderBucket> = Vec::new();
    let mut n: usize = 0;
    let ghost vs = v@;
    let total = v.len();
    let mut rest = v;
    assert(vs.len() == total);
    while rest.len() > 0
        invariant
            vs.len() <= usize::MAX,
            n + rest@.len() == vs.len(),
            rest@ == vs.subrange(n as int, vs.len() as int),
            forall|i: int, j: int|
                0 <= i < j < vs.len() ==> (#[trigger] vs[i]).provider_id@ != (#[trigger] vs[j]).provider_id@,
            sorted_buckets(out@),
            forall|i: int|
                0 <= i < out@.len() ==> exists|j: int| 0 <= j < n && #[trigger] out@[i] == vs[j],
            forall|j: int| 0 <= j < n ==> out@.contains(#[trigger] vs[j]),
        decreases rest@.len(),
    {
        let x = rest.remove(0);
        assert(x == vs[n as int]);
        assert(rest@ =~= vs.subrange(n + 1, vs.len() as int));
        let mut j: usize = 0;
        while j < out.len() && !bucket_precedes(&x, &out[j])
            invariant
                j <= out@.len(),
                forall|i: int| 0 <= i < j ==> !bucket_before(x, #[trigger] out@[i]),
            decreases out@.len() - j,
        {
            j = j + 1;
        }
        let ghost old_out = out@;
        proof {
            assert forall|i: int| 0 <= i < j implies bucket_before(#[trigger] old_out[i], x) by {
                let w = choose|w: int| 0 <= w < n && old_out[i] == vs[w];
                assert(vs[w].provider_id@ != vs[n as int].provider_id@);
                lemma_before_total(old_out[i], x);
            }
            assert forall|i: int| j <= i < old_out.len() implies bucket_before(x, #[trigger] old_out[i]) by {
                if i > j {
                    assert(bucket_before(old_out[j as int], old_out[i]));
                    lemma_before_transitive(x, old_out[j as int], old_out[i]);
                }
            }
        }
        out.insert(j, x);
        proof {
            let o = out@;
            assert(o == old_out.insert(j as int, x));
            assert forall|a: int, b: int| 0 <= a < b < o.len() implies bucket_before(
                #[trigger] o[a],
                #[trigger] o[b],
            ) by {
                if a < j && b < j {
                    assert(o[a] == old_out[a] && o[b] == old_out[b]);
                } else if a < j && b == j {
                    assert(o[a] == old_out[a]);
                } else if a < j && b > j {
                    assert(o[a] == old_out[a] && o[b] == old_out[b - 1]);
                } else if a == j {
                    assert(o[b] == old_out[b - 1]);
                } else {
                    assert(o[a] == old_out[a - 1] && o[b] == old_out[b - 1]);
                }
            }
            assert forall|i: int| 0 <= i < o.len() implies exists|w: int|
                0 <= w < n + 1 && #[trigger] o[i] == vs[w] by {
                if i < j {
                    assert(o[i] == old_out[i]);
                } else if i == j {
                    assert(o[i] == vs[n as int]);
                } else {
                    assert(o[i] == old_out[i - 1]);
                }
            }
            assert forall|w: int| 0 <= w < n + 1 implies o.contains(#[trigger] vs[w]) by {
                if w < n {
                    assert(old_out.contains(vs[w]));
                    let i = choose|i: int| 0 <= i < old_out.len() && old_out[i] == vs[w];
                    if i < j {
                        assert(o[i] == vs[w]);
                    } else {
                        assert(o[i + 1] == vs[w]);
                    }
                } else {
                    assert(o[j as int] == vs[w]);
                }
            }
        }
        n = n + 1;
    }
    proof {
        assert forall|i: int| 0 <= i < out@.len() implies vs.contains(#[trigger] out@[i]) by {
            let w = choose|w: int| 0 <= w < n && out@[i] == vs[w];
        }
    }
    out
}

// ---------------------------------------------------------------------------
// Mappings in force
// ---------------------------------------------------------------------------

/// Some archived thread has this id.
pub open spec fn archived_id(snaps: Seq<ThreadSnapshot>, id: Seq<char>) -> bool {
    exists|i: int| 0 <= i < snaps.len() && (#[trigger] snaps[i]).archived && snaps[i].thread_id@ == id
}

/// A mapping still pairs two live threads: it is not deleted and neither thread is archived.
pub open spec fn in_force(snaps: Seq<ThreadSnapshot>) -> spec_fn(ReplicaMapping) -> bool {
    |m: ReplicaMapping|
        m.deleted_at is None && !archived_id(snaps, m.source_thread_id@) && !archived_id(
            snaps,
            m.replica_thread_id@,
        )
}

/// In force, and replicating into `target`.
pub open spec fn in_force_into(snaps: Seq<ThreadSnapshot>, target: Seq<char>) -> spec_fn(
    ReplicaMapping,
) -> bool {
    |m: ReplicaMapping| (in_force(snaps))(m) && m.target_provider_id@ == target
}

fn is_archived_id(snaps: &Vec<ThreadSnapshot>, id: &str) -> (r: bool)
    ensures
        r == archived_id(snaps@, id@),
{
    let mut i: usize = 0;
    while i < snaps.len()
        invariant
            i <= snaps.len(),
            forall|j: int| 0 <= j < i ==> !((#[trigger] snaps@[j]).archived && snaps@[j].thread_id@ == id@),
        decreases snaps.len() - i,
    {
        if snaps[i].archived && str_eq(snaps[i].thread_id.as_str(), id) {
            return true;
        }
        i = i + 1;
    }
    false
}

fn mapping_in_force(m: &ReplicaMapping, snaps: &Vec<ThreadSnapshot>) -> (r: bool)
    ensures
        r == (in_force(snaps@))(*m),
{
    m.deleted_at.is_none() && !is_archived_id(snaps, m.source_thread_id.as_str())
        && !is_archived_id(snaps, m.replica_thread_id.as_str())
}

/// The mapping a keyed lookup among the mappings in force finds (see `mapping_index`).
fn find_in_force(
    v: &Vec<ReplicaMapping>,
    id: &str,
    by_replica: bool,
    target: Option<&str>,
    snaps: &Vec<ThreadSnapshot>,
) -> (r: Option<usize>)
    ensures
        ({
            let keep = match target {
                Some(t) => in_force_into(snaps@, t@),
                None => in_force(snaps@),
            };
            match r {
                Some(i) => mapping_index(v@, id@, by_replica, keep) == i as int && i < v@.len(),
                None => mapping_index(v@, id@, by_replica, keep) == -1,
            }
        }),
{
    let ghost keep = match target {
        Some(t) => in_force_into(snaps@, t@),
        None => in_force(snaps@),
    };
    let mut i: usize = v.len();
    assert(v@.subrange(0, v@.len() as int) =~= v@);
    while i > 0
        invariant
            i <= v.len(),
            keep == match target {
                Some(t) => in_force_into(snaps@, t@),
                None => in_force(snaps@),
            },
            mapping_index(v@.subrange(0, i as int), id@, by_replica, keep) == mapping_index(
                v@,
                id@,
                by_replica,
                keep,
            ),
        decreases i,
    {
        proof {
            assert(v@.subrange(0, i as int).drop_last() =~= v@.subrange(0, i - 1));
        }
        let m = &v[i - 1];
        let kept = mapping_in_force(m, snaps) && match target {
            Some(t) => str_eq(m.target_provider_id.as_str(), t),
            None => true,
        };
        let key = if by_replica {
            m.replica_thread_id.as_str()
        } else {
            m.source_thread_id.as_str()
        };
        if kept && str_eq(key, id) {
            return Some(i - 1);
        }
        i = i - 1;
    }
    None
}

// ---------------------------------------------------------------------------
// Parent threads
// ---------------------------------------------------------------------------

/// The parent recorded for a thread: the last link whose child it is.
pub open spec fn parent_of(links: Seq<(String, String)>, id: Seq<char>) -> Option<Seq<char>>
    decreases links.len(),
{
    if links.len() == 0 {
        None
    } else if links.last().0@ == id {
        Some(links.last().1@)
    } else {
        parent_of(links.drop_last(), id)
    }
}

pub open spec fn is_blank_text(s: Seq<char>) -> bool {
    crate::text::all_ws(s)
}

/// The spawn edges with a blank end left out.
pub open spec fn kept_edges(rows: Seq<(String, String)>) -> Seq<(String, String)> {
    rows.filter(|r: (String, String)| !is_blank_text(r.0@) && !is_blank_text(r.1@))
}

/// The (child, parent) links of the spawn edges read as (parent, child) rows, edges with a
/// blank end left out.
pub fn parent_links(rows: &Vec<(String, String)>) -> (r: Vec<(String, String)>)
    ensures
        r@.len() == kept_edges(rows@).len(),
        forall|k: int|
            0 <= k < r@.len() ==> (#[trigger] r@[k]).0 == kept_edges(rows@)[k].1 && r@[k].1
                == kept_edges(rows@)[k].0,
{
    let ghost pred = |r: (String, String)| !is_blank_text(r.0@) && !is_blank_text(r.1@);
    let mut out: Vec<(String, String)> = Vec::new();
    let mut i: usize = 0;
    while i < rows.len()
        invariant
            i <= rows.len(),
            pred == (|r: (String, String)| !is_blank_text(r.0@) && !is_blank_text(r.1@)),
            out@.len() == rows@.subrange(0, i as int).filter(pred).len(),
            forall|k: int|
                0 <= k < out@.len() ==> (#[trigger] out@[k]).0 == rows@.subrange(0, i as int).filter(
                    pred,
                )[k].1 && out@[k].1 == rows@.subrange(0, i as int).filter(pred)[k].0,
        decreases rows.len() - i,
    {
        proof {
            let pre = rows@.subrange(0, i as int);
            assert(rows@.subrange(0, i + 1) =~= pre.push(rows@[i as int]));
            pre.lemma_filter_push(rows@[i as int], pred);
        }
        let (parent, child) = &rows[i];
        if !is_blank(&chars_of(parent.as_str())) && !is_blank(&chars_of(child.as_str())) {
            out.push((child.clone(), parent.clone()));
        }
        i = i + 1;
    }
    assert(rows@.subrange(0, rows@.len() as int) =~= rows@);
    out
}

fn find_parent(links: &Vec<(String, String)>, id: &str) -> (r: Option<String>)
    ensures
        opt_chars(r) == parent_of(links@, id@),
{
    let mut i: usize = links.len();
    assert(links@.subrange(0, links@.len() as int) =~= links@);
    while i > 0
        invariant
            i <= links.len(),
            parent_of(links@.subrange(0, i as int), id@) == parent_of(links@, id@),
        decreases i,
    {
        proof {
            assert(links@.subrange(0, i as int).drop_last() =~= links@.subrange(0, i - 1));
        }
        if str_eq(links[i - 1].0.as_str(), id) {
            return Some(links[i - 1].1.clone());
        }
        i = i - 1;
    }
    None
}

// ---------------------------------------------------------------------------
// Session records
// ---------------------------------------------------------------------------

/// The record listed for a thread under its provider.
pub open spec fn record_ok(
    r: ProviderSessionRecord,
    s: ThreadSnapshot,
    current: Seq<char>,
    mappings: Seq<ReplicaMapping>,
    snaps: Seq<ThreadSnapshot>,
    links: Seq<(String, String)>,
) -> bool {
    let rm = mapping_at(mappings, mapping_index(mappings, s.thread_id@, true, in_force(snaps)));
    let sm = mapping_at(
        mappings,
        mapping_index(mappings, s.thread_id@, false, in_force_into(snaps, current)),
    );
    let e = eligibility_of(s, current, rm, sm);
    &&& r.thread_id == s.thread_id
    &&& r.provider_id@ == provider_or_unknown(s)
    &&& r.source_kind == s.source_kind
    &&& r.archived == s.archived
    &&& r.title == s.title
    &&& r.cwd == s.cwd
    &&& r.updated_at == s.updated_at
    &&& r.size_bytes == s.size_bytes
    &&& r.sha256 == s.raw_sha256
    &&& r.agent_nickname == s.agent_nickname
    &&& opt_chars(r.parent_thread_id) == match parent_of(links, s.thread_id@) {
        Some(p) => Some(p),
        None => opt_chars(s.parent_thread_id),
    }
    &&& r.eligibility == e.0
    &&& r.eligibility_reason@ == e.1
    &&& opt_chars(r.replica_thread_id) == e.2
    &&& r.is_replica == (rm is Some)
}

fn session_record(
    s: &ThreadSnapshot,
    current: &str,
    mappings: &Vec<ReplicaMapping>,
    snaps: &Vec<ThreadSnapshot>,
    links: &Vec<(String, String)>,
) -> (r: ProviderSessionRecord)
    ensures
        record_ok(r, *s, current@, mappings@, snaps@, links@),
{
    let rm = match find_in_force(mappings, s.thread_id.as_str(), true, None, snaps) {
        Some(i) => Some(&mappings[i]),
        None => None,
    };
    let sm = match find_in_force(mappings, s.thread_id.as_str(), false, Some(current), snaps) {
        Some(i) => Some(&mappings[i]),
        None => None,
    };
    let (e, reason, replica_thread_id) = eligibility(s, current, rm, sm);
    let parent_thread_id = match find_parent(links, s.thread_id.as_str()) {
        Some(p) => Some(p),
        None => clone_opt(&s.parent_thread_id),
    };
    ProviderSessionRecord {
        thread_id: s.thread_id.clone(),
        provider_id: provider_or_unknown_of(s),
        source_kind: s.source_kind,
        archived: s.archived,
        title: s.title.clone(),
        cwd: clone_opt(&s.cwd),
        updated_at: clone_opt(&s.updated_at),
        size_bytes: s.size_bytes,
        sha256: s.raw_sha256.clone(),
        agent_nickname: clone_opt(&s.agent_nickname),
        parent_thread_id,
        eligibility: e,
        eligibility_reason: reason,
        replica_thread_id,
        is_replica: rm.is_some(),
    }
}

/// A copy of a session record.
pub fn copy_record(r: &ProviderSessionRecord) -> (c: ProviderSessionRecord)
    ensures
        c == *r,
{
    ProviderSessionRecord {
        thread_id: r.thread_id.clone(),
        provider_id: r.provider_id.clone(),
        source_kind: r.source_kind,
        archived: r.archived,
        title: r.title.clone(),
        cwd: clone_opt(&r.cwd),
        updated_at: clone_opt(&r.updated_at),
        size_bytes: r.size_bytes,
        sha256: r.sha256.clone(),
        agent_nickname: clone_opt(&r.agent_nickname),
        parent_thread_id: clone_opt(&r.parent_thread_id),
        eligibility: r.eligibility,
        eligibility_reason: r.eligibility_reason.clone(),
        replica_thread_id: clone_opt(&r.replica_thread_id),
        is_replica: r.is_replica,
    }
}

/// A copy of a bucket.
pub fn copy_bucket(b: &ProviderBucket) -> (c: ProviderBucket)
    ensures
        c == *b,
{
    ProviderBucket {
        profile_id: b.profile_id.clone(),
        provider_id: b.provider_id.clone(),
        is_current: b.is_current,
        active_root_thread_count: b.active_root_thread_count,
        archived_thread_count: b.archived_thread_count,
        internal_thread_count: b.internal_thread_count,
        replicated_count: b.replicated_count,
    }
}

// ---------------------------------------------------------------------------
// Buckets
// ---------------------------------------------------------------------------

/// 0: an active main thread; 1: archived; 2: an active internal thread.
pub open spec fn category(s: ThreadSnapshot) -> int {
    if s.archived {
        1
    } else if interactive(s.source_kind) {
        0
    } else {
        2
    }
}

pub open spec fn threads_of(snaps: Seq<ThreadSnapshot>, p: Seq<char>, cat: int) -> Seq<ThreadSnapshot> {
    snaps.filter(|s: ThreadSnapshot| provider_or_unknown(s) == p && category(s) == cat)
}

/// A provider's card counts every archived thread of the provider as archived, whatever
/// its source; its active counts take only threads that are not archived, main sessions
/// (cli, vscode) as active roots and all others as internal.
pub proof fn law_archived_threads_count_as_archived(snaps: Seq<ThreadSnapshot>, p: Seq<char>)
    ensures
        threads_of(snaps, p, 1) == snaps.filter(
            |s: ThreadSnapshot| provider_or_unknown(s) == p && s.archived,
        ),
        threads_of(snaps, p, 0) == snaps.filter(
            |s: ThreadSnapshot| provider_or_unknown(s) == p && !s.archived && interactive(s.source_kind),
        ),
        threads_of(snaps, p, 2) == snaps.filter(
            |s: ThreadSnapshot| provider_or_unknown(s) == p && !s.archived && !interactive(s.source_kind),
        ),
{
    let a1 = |s: ThreadSnapshot| provider_or_unknown(s) == p && category(s) == 1;
    let b1 = |s: ThreadSnapshot| provider_or_unknown(s) == p && s.archived;
    assert(a1 =~= b1);
    let a0 = |s: ThreadSnapshot| provider_or_unknown(s) == p && category(s) == 0;
    let b0 = |s: ThreadSnapshot| provider_or_unknown(s) == p && !s.archived && interactive(s.source_kind);
    assert(a0 =~= b0);
    let a2 = |s: ThreadSnapshot| provider_or_unknown(s) == p && category(s) == 2;
    let b2 = |s: ThreadSnapshot| provider_or_unknown(s) == p && !s.archived && !interactive(s.source_kind);
    assert(a2 =~= b2);
}

/// The verified mappings in force whose source is in provider `p`.
pub open spec fn replicated_from(
    ms: Seq<ReplicaMapping>,
    snaps: Seq<ThreadSnapshot>,
    p: Seq<char>,
) -> Seq<ReplicaMapping> {
    ms.filter(
        |m: ReplicaMapping|
            m.status@ == verified_status() && (in_force(snaps))(m) && m.source_provider_id@ == p,
    )
}

fn count_threads(snaps: &Vec<ThreadSnapshot>, p: &str, cat: u8) -> (r: usize)
    requires
        cat <= 2,
    ensures
        r == threads_of(snaps@, p@, cat as int).len(),
{
    let ghost pred = |s: ThreadSnapshot| provider_or_unknown(s) == p@ && category(s) == cat as int;
    let mut n: usize = 0;
    let mut i: usize = 0;
    while i < snaps.len()
        invariant
            i <= snaps.len(),
            pred == (|s: ThreadSnapshot| provider_or_unknown(s) == p@ && category(s) == cat as int),
            n == snaps@.subrange(0, i as int).filter(pred).len(),
            n <= i,
        decreases snaps.len() - i,
    {
        proof {
            let pre = snaps@.subrange(0, i as int);
            assert(snaps@.subrange(0, i + 1) =~= pre.push(snaps@[i as int]));
            pre.lemma_filter_push(snaps@[i as int], pred);
        }
        let s = &snaps[i];
        let c: u8 = if s.archived {
            1
        } else if is_interactive(&s.source_kind) {
            0
        } else {
            2
        };
        if c == cat && str_eq(provider_or_unknown_of(s).as_str(), p) {
            n = n + 1;
        }
        i = i + 1;
    }
    assert(snaps@.subrange(0, snaps@.len() as int) =~= snaps@);
    n
}

fn count_replicated(ms: &Vec<ReplicaMapping>, snaps: &Vec<ThreadSnapshot>, p: &str) -> (r: usize)
    ensures
        r == replicated_from(ms@, snaps@, p@).len(),
{
    let ghost pred = |m: ReplicaMapping|
        m.status@ == verified_status() && (in_force(snaps@))(m) && m.source_provider_id@ == p@;
    let mut n: usize = 0;
    let mut i: usize = 0;
    while i < ms.len()
        invariant
            i <= ms.len(),
            pred == (|m: ReplicaMapping|
                m.status@ == verified_status() && (in_force(snaps@))(m) && m.source_provider_id@
                    == p@),
            n == ms@.subrange(0, i as int).filter(pred).len(),
            n <= i,
        decreases ms.len() - i,
    {
        proof {
            let pre = ms@.subrange(0, i as int);
            assert(ms@.subrange(0, i + 1) =~= pre.push(ms@[i as int]));
            pre.lemma_filter_push(ms@[i as int], pred);
        }
        let m = &ms[i];
        if str_eq(m.status.as_str(), "verified") && mapping_in_force(m, snaps) && str_eq(
            m.source_provider_id.as_str(),
            p,
        ) {
            n = n + 1;
        }
        i = i + 1;
    }
    assert(ms@.subrange(0, ms@.len() as int) =~= ms@);
    n
}

/// The providers that get a card: the current one, those the profile lists, and those of
/// its threads.
pub open spec fn is_bucket_id(
    p: Seq<char>,
    current: Seq<char>,
    profile: Profile,
    snaps: Seq<ThreadSnapshot>,
) -> bool {
    ||| p == current
    ||| exists|i: int| 0 <= i < profile.providers@.len() && (#[trigger] profile.providers@[i]).id@ == p
    ||| exists|i: int| 0 <= i < snaps.len() && provider_or_unknown(#[trigger] snaps[i]) == p
}

/// A provider card with its counts.
pub open spec fn bucket_ok(
    b: ProviderBucket,
    profile: Profile,
    current: Seq<char>,
    mappings: Seq<ReplicaMapping>,
    snaps: Seq<ThreadSnapshot>,
) -> bool {
    let p = b.provider_id@;
    &&& is_bucket_id(p, current, profile, snaps)
    &&& b.profile_id == profile.id
    &&& b.is_current == (p == current)
    &&& b.active_root_thread_count == threads_of(snaps, p, 0).len()
    &&& b.archived_thread_count == threads_of(snaps, p, 1).len()
    &&& b.internal_thread_count == threads_of(snaps, p, 2).len()
    &&& b.replicated_count == replicated_from(mappings, snaps, p).len()
}

fn make_bucket(
    profile: &Profile,
    current: &str,
    mappings: &Vec<ReplicaMapping>,
    snaps: &Vec<ThreadSnapshot>,
    p: &String,
) -> (r: ProviderBucket)
    requires
        is_bucket_id(p@, current@, *profile, snaps@),
    ensures
        bucket_ok(r, *profile, current@, mappings@, snaps@),
        r.provider_id == *p,
{
    ProviderBucket {
        profile_id: profile.id.clone(),
        provider_id: p.clone(),
        is_current: str_eq(p.as_str(), current),
        active_root_thread_count: count_threads(snaps, p.as_str(), 0),
        archived_thread_count: count_threads(snaps, p.as_str(), 1),
        internal_thread_count: count_threads(snaps, p.as_str(), 2),
        replicated_count: count_replicated(mappings, snaps, p.as_str()),
    }
}

/// Adds `p` to a list of distinct texts unless it is there.
fn add_distinct(ids: &mut Vec<String>, p: String)
    requires
        forall|i: int, j: int|
            0 <= i < j < old(ids)@.len() ==> (#[trigger] old(ids)@[i])@ != (#[trigger] old(ids)@[j])@,
    ensures
        forall|i: int, j: int|
            0 <= i < j < final(ids)@.len() ==> (#[trigger] final(ids)@[i])@ != (#[trigger] final(ids)@[j])@,
        forall|x: Seq<char>| crate::text::has_text(final(ids)@, x) <==> (crate::text::has_text(old(ids)@, x) || x == p@),
{
    if !crate::text::contains_text(ids, &p) {
        let ghost before = ids@;
        ids.push(p);
        proof {
            assert forall|x: Seq<char>| crate::text::has_text(ids@, x) <==> (crate::text::has_text(before, x) || x == p@) by {
                if crate::text::has_text(ids@, x) {
                    let i = choose|i: int| 0 <= i < ids@.len() && (#[trigger] ids@[i])@ == x;
                    if i < before.len() {
                        assert(before[i] == ids@[i]);
                    }
                }
                if crate::text::has_text(before, x) {
                    let i = choose|i: int| 0 <= i < before.len() && (#[trigger] before[i])@ == x;
                    assert(ids@[i] == before[i]);
                }
                if x == p@ {
                    assert(ids@[before.len() as int]@ == x);
                }
            }
        }
    }
}

/// The distinct providers that get a card.
fn bucket_ids(current: &str, profile: &Profile, snaps: &Vec<ThreadSnapshot>) -> (r: Vec<String>)
    ensures
        forall|i: int, j: int| 0 <= i < j < r@.len() ==> (#[trigger] r@[i])@ != (#[trigger] r@[j])@,
        forall|x: Seq<char>| crate::text::has_text(r@, x) <==> is_bucket_id(x, current@, *profile, snaps@),
{
    let mut ids: Vec<String> = Vec::new();
    add_distinct(&mut ids, current.to_string());
    let mut i: usize = 0;
    while i < profile.providers.len()
        invariant
            i <= profile.providers@.len(),
            forall|a: int, b: int| 0 <= a < b < ids@.len() ==> (#[trigger] ids@[a])@ != (#[trigger] ids@[b])@,
            forall|x: Seq<char>|
                crate::text::has_text(ids@, x) <==> (x == current@ || exists|k: int|
                    0 <= k < i && (#[trigger] profile.providers@[k]).id@ == x),
        decreases profile.providers@.len() - i,
    {
        add_distinct(&mut ids, profile.providers[i].id.clone());
        i = i + 1;
    }
    let mut j: usize = 0;
    while j < snaps.len()
        invariant
            j <= snaps@.len(),
            forall|a: int, b: int| 0 <= a < b < ids@.len() ==> (#[trigger] ids@[a])@ != (#[trigger] ids@[b])@,
            forall|x: Seq<char>|
                crate::text::has_text(ids@, x) <==> (x == current@ || (exists|k: int|
                    0 <= k < profile.providers@.len() && (#[trigger] profile.providers@[k]).id@ == x) || exists|k: int|
                    0 <= k < j && provider_or_unknown(#[trigger] snaps@[k]) == x),
        decreases snaps@.len() - j,
    {
        add_distinct(&mut ids, provider_or_unknown_of(&snaps[j]));
        j = j + 1;
    }
    ids
}

// ---------------------------------------------------------------------------
// The scan
// ---------------------------------------------------------------------------

/// The provider cards of a Codex home, in order, and the sessions listed under each provider.
pub struct ProviderScan {
    pub buckets: Vec<ProviderBucket>,
    pub sessions_by_provider: Vec<(String, Vec<ProviderSessionRecord>)>,
}

/// The threads of provider `p`, in the order of the scan.
pub open spec fn threads_in(snaps: Seq<ThreadSnapshot>, p: Seq<char>) -> Seq<ThreadSnapshot> {
    snaps.filter(|s: ThreadSnapshot| provider_or_unknown(s) == p)
}

/// The session list of one provider.
pub open spec fn entry_ok(
    e: (String, Vec<ProviderSessionRecord>),
    current: Seq<char>,
    mappings: Seq<ReplicaMapping>,
    snaps: Seq<ThreadSnapshot>,
    links: Seq<(String, String)>,
) -> bool {
    let ts = threads_in(snaps, e.0@);
    &&& e.1@.len() == ts.len()
    &&& forall|j: int|
        0 <= j < e.1@.len() ==> record_ok(#[trigger] e.1@[j], ts[j], current, mappings, snaps, links)
}

/// What a scan holds: a card for every provider that gets one, each with its counts, in
/// order (so each provider once); and one session list per provider that has threads.
pub open spec fn scan_ok(
    scan: ProviderScan,
    profile: Profile,
    current: Seq<char>,
    mappings: Seq<ReplicaMapping>,
    snaps: Seq<ThreadSnapshot>,
    links: Seq<(String, String)>,
) -> bool {
    &&& sorted_buckets(scan.buckets@)
    &&& forall|k: int|
        0 <= k < scan.buckets@.len() ==> bucket_ok(
            #[trigger] scan.buckets@[k],
            profile,
            current,
            mappings,
            snaps,
        )
    &&& forall|p: Seq<char>|
        is_bucket_id(p, current, profile, snaps) ==> exists|k: int|
            0 <= k < scan.buckets@.len() && (#[trigger] scan.buckets@[k]).provider_id@ == p
    &&& forall|a: int, b: int|
        0 <= a < b < scan.sessions_by_provider@.len() ==> (#[trigger] scan.sessions_by_provider@[a]).0@
            != (#[trigger] scan.sessions_by_provider@[b]).0@
    &&& forall|k: int|
        0 <= k < scan.sessions_by_provider@.len() ==> entry_ok(
            #[trigger] scan.sessions_by_provider@[k],
            current,
            mappings,
            snaps,
            links,
        )
    &&& forall|p: Seq<char>|
        #![trigger has_key(scan.sessions_by_provider@, p)]
        #![trigger has_thread_in(snaps, p)]
        has_key(scan.sessions_by_provider@, p) <==> has_thread_in(snaps, p)
}

pub open spec fn has_key(v: Seq<(String, Vec<ProviderSessionRecord>)>, p: Seq<char>) -> bool {
    exists|k: int| 0 <= k < v.len() && (#[trigger] v[k]).0@ == p
}

pub open spec fn has_thread_in(snaps: Seq<ThreadSnapshot>, p: Seq<char>) -> bool {
    exists|i: int| 0 <= i < snaps.len() && provider_or_unknown(#[trigger] snaps[i]) == p
}

pub open spec fn missing_provider_message() -> Seq<char> {
    "current Provider is missing from config.toml"@
}

/// The threads of provider `p` as session records.
fn records_of(
    p: &String,
    snaps: &Vec<ThreadSnapshot>,
    records: &Vec<ProviderSessionRecord>,
    current: &str,
    mappings: &Vec<ReplicaMapping>,
    links: &Vec<(String, String)>,
) -> (r: Vec<ProviderSessionRecord>)
    requires
        records@.len() == snaps@.len(),
        forall|i: int|
            0 <= i < snaps@.len() ==> record_ok(
                #[trigger] records@[i],
                snaps@[i],
                current@,
                mappings@,
                snaps@,
                links@,
            ),
    ensures
        entry_ok((*p, r), current@, mappings@, snaps@, links@),
{
    let ghost pred = |s: ThreadSnapshot| provider_or_unknown(s) == p@;
    let mut out: Vec<ProviderSessionRecord> = Vec::new();
    let mut i: usize = 0;
    while i < snaps.len()
        invariant
            i <= snaps.len(),
            records@.len() == snaps@.len(),
            forall|k: int|
                0 <= k < snaps@.len() ==> record_ok(
                    #[trigger] records@[k],
                    snaps@[k],
                    current@,
                    mappings@,
                    snaps@,
                    links@,
                ),
            pred == (|s: ThreadSnapshot| provider_or_unknown(s) == p@),
            out@.len() == snaps@.subrange(0, i as int).filter(pred).len(),
            forall|k: int|
                0 <= k < out@.len() ==> record_ok(
                    #[trigger] out@[k],
                    snaps@.subrange(0, i as int).filter(pred)[k],
                    current@,
                    mappings@,
                    snaps@,
                    links@,
                ),
        decreases snaps.len() - i,
    {
        proof {
            let pre = snaps@.subrange(0, i as int);
            assert(snaps@.subrange(0, i + 1) =~= pre.push(snaps@[i as int]));
            pre.lemma_filter_push(snaps@[i as int], pred);
        }
        if str_eq(provider_or_unknown_of(&snaps[i]).as_str(), p.as_str()) {
            out.push(copy_record(&records[i]));
        }
        i = i + 1;
    }
    assert(snaps@.subrange(0, snaps@.len() as int) =~= snaps@);
    out
}

/// Scans the threads of a Codex home into provider cards and session lists. `current` is
/// the provider read from the home's `config.toml`; `links` are the (child, parent) pairs
/// of its spawn edges (see [`parent_links`]).
pub fn provider_scan_from_snapshots(
    profile: &Profile,
    current: &str,
    mappings: &Vec<ReplicaMapping>,
    snapshots: &Vec<ThreadSnapshot>,
    links: &Vec<(String, String)>,
) -> (r: Result<ProviderScan, AppError>)
    ensures
        r is Err <==> is_blank_text(current@),
        r matches Err(e) ==> e == AppError::Message(e.text_string()) && e.text()
            == missing_provider_message(),
        r matches Ok(scan) ==> scan_ok(scan, *profile, current@, mappings@, snapshots@, links@),
{
    if is_blank(&chars_of(current)) {
        return Err(AppError::Message("current Provider is missing from config.toml".to_string()));
    }
    // Cards.
    let ids = bucket_ids(current, profile, snapshots);
    let mut unsorted: Vec<ProviderBucket> = Vec::new();
    let mut i: usize = 0;
    while i < ids.len()
        invariant
            i <= ids@.len(),
            unsorted@.len() == i,
            forall|a: int, b: int| 0 <= a < b < ids@.len() ==> (#[trigger] ids@[a])@ != (#[trigger] ids@[b])@,
            forall|x: Seq<char>|
                crate::text::has_text(ids@, x) <==> is_bucket_id(x, current@, *profile, snapshots@),
            forall|k: int|
                0 <= k < i ==> bucket_ok(#[trigger] unsorted@[k], *profile, current@, mappings@, snapshots@)
                    && unsorted@[k].provider_id == ids@[k],
        decreases ids@.len() - i,
    {
        proof {
            assert(crate::text::has_text(ids@, ids@[i as int]@));
        }
        unsorted.push(make_bucket(profile, current, mappings, snapshots, &ids[i]));
        i = i + 1;
    }
    let ghost u = unsorted@;
    let buckets = sort_buckets(unsorted);
    proof {
        assert forall|p: Seq<char>| is_bucket_id(p, current@, *profile, snapshots@) implies exists|k: int|
            0 <= k < buckets@.len() && (#[trigger] buckets@[k]).provider_id@ == p by {
            assert(crate::text::has_text(ids@, p));
            let j = choose|j: int| 0 <= j < ids@.len() && (#[trigger] ids@[j])@ == p;
            assert(buckets@.contains(u[j]));
        }
        assert forall|k: int| 0 <= k < buckets@.len() implies bucket_ok(
            #[trigger] buckets@[k],
            *profile,
            current@,
            mappings@,
            snapshots@,
        ) by {
            assert(u.contains(buckets@[k]));
        }
    }
    // Session lists.
    let mut records: Vec<ProviderSessionRecord> = Vec::new();
    let mut j: usize = 0;
    while j < snapshots.len()
        invariant
            j <= snapshots@.len(),
            records@.len() == j,
            forall|k: int|
                0 <= k < j ==> record_ok(
                    #[trigger] records@[k],
                    snapshots@[k],
                    current@,
                    mappings@,
                    snapshots@,
                    links@,
                ),
        decreases snapshots@.len() - j,
    {
        records.push(session_record(&snapshots[j], current, mappings, snapshots, links));
        j = j + 1;
    }
    let mut keys: Vec<String> = Vec::new();
    let mut m: usize = 0;
    while m < snapshots.len()
        invariant
            m <= snapshots@.len(),
            forall|a: int, b: int| 0 <= a < b < keys@.len() ==> (#[trigger] keys@[a])@ != (#[trigger] keys@[b])@,
            forall|x: Seq<char>|
                crate::text::has_text(keys@, x) <==> exists|k: int|
                    0 <= k < m && provider_or_unknown(#[trigger] snapshots@[k]) == x,
        decreases snapshots@.len() - m,
    {
        add_distinct(&mut keys, provider_or_unknown_of(&snapshots[m]));
        m = m + 1;
    }
    let mut sessions: Vec<(String, Vec<ProviderSessionRecord>)> = Vec::new();
    let mut q: usize = 0;
    while q < keys.len()
        invariant
            q <= keys@.len(),
            sessions@.len() == q,
            records@.len() == snapshots@.len(),
            forall|k: int|
                0 <= k < snapshots@.len() ==> record_ok(
                    #[trigger] records@[k],
                    snapshots@[k],
                    current@,
                    mappings@,
                    snapshots@,
                    links@,
                ),
            forall|k: int|
                0 <= k < q ==> (#[trigger] sessions@[k]).0 == keys@[k] && entry_ok(
                    sessions@[k],
                    current@,
                    mappings@,
                    snapshots@,
                    links@,
                ),
        decreases keys@.len() - q,
    {
        let list = records_of(&keys[q], snapshots, &records, current, mappings, links);
        sessions.push((keys[q].clone(), list));
        q = q + 1;
    }
    proof {
        assert forall|a: int, b: int| 0 <= a < b < sessions@.len() implies (#[trigger] sessions@[a]).0@
            != (#[trigger] sessions@[b]).0@ by {
            assert(keys@[a]@ != keys@[b]@);
        }
        assert forall|p: Seq<char>|
            #![trigger has_key(sessions@, p)]
            #![trigger has_thread_in(snapshots@, p)]
            has_key(sessions@, p) <==> has_thread_in(snapshots@, p) by {
            if exists|k: int| 0 <= k < sessions@.len() && (#[trigger] sessions@[k]).0@ == p {
                let k = choose|k: int| 0 <= k < sessions@.len() && (#[trigger] sessions@[k]).0@ == p;
                assert(keys@[k]@ == p);
                assert(crate::text::has_text(keys@, p));
            }
            if exists|i: int| 0 <= i < snapshots@.len() && provider_or_unknown(#[trigger] snapshots@[i]) == p {
                assert(crate::text::has_text(keys@, p));
                let k = choose|k: int| 0 <= k < keys@.len() && (#[trigger] keys@[k])@ == p;
                assert(sessions@[k].0@ == p);
            }
        }
    }
    let scan = ProviderScan { buckets, sessions_by_provider: sessions };
    assert(sorted_buckets(scan.buckets@));
    assert(forall|k: int|
        0 <= k < scan.sessions_by_provider@.len() ==> entry_ok(
            #[trigger] scan.sessions_by_provider@[k],
            current@,
            mappings@,
            snapshots@,
            links@,
        ));
    assert(forall|p: Seq<char>|
        #![trigger has_key(scan.sessions_by_provider@, p)]
        #![trigger has_thread_in(snapshots@, p)]
        has_key(scan.sessions_by_provider@, p) <==> has_thread_in(snapshots@, p));
    Ok(scan)
}

// ---------------------------------------------------------------------------
// The workspace view
// ---------------------------------------------------------------------------

/// The position of the first element satisfying `p`, or -1.
pub open spec fn first_index<T>(s: Seq<T>, p: spec_fn(T) -> bool) -> int
    decreases s.len(),
{
    if s.len() == 0 {
        -1
    } else if p(s[0]) {
        0
    } else {
        let k = first_index(s.drop_first(), p);
        if k < 0 {
            -1
        } else {
            k + 1
        }
    }
}

pub proof fn lemma_first_index<T>(s: Seq<T>, p: spec_fn(T) -> bool, k: int)
    requires
        0 <= k <= s.len(),
        forall|j: int| 0 <= j < k ==> !p(#[trigger] s[j]),
        k == s.len() || p(s[k]),
    ensures
        first_index(s, p) == if k == s.len() {
            -1
        } else {
            k
        },
    decreases k,
{
    if k > 0 {
        let t = s.drop_first();
        assert forall|j: int| 0 <= j < k - 1 implies !p(#[trigger] t[j]) by {
            assert(t[j] == s[j + 1]);
        }
        assert(!p(s[0]));
        if k < s.len() {
            assert(t[k - 1] == s[k]);
        }
        lemma_first_index(t, p, k - 1);
    }
}

/// A card that is not the current provider's and has active main threads.
pub open spec fn other_active() -> spec_fn(ProviderBucket) -> bool {
    |b: ProviderBucket| !b.is_current && b.active_root_thread_count > 0
}

/// The provider whose sessions are shown: the requested one if it has a card, else the
/// first other provider with active main threads, else the first card's.
pub open spec fn selected_provider(b: Seq<ProviderBucket>, requested: Option<Seq<char>>) -> Option<
    Seq<char>,
> {
    let k = first_index(b, other_active());
    if requested is Some && (exists|i: int|
        0 <= i < b.len() && (#[trigger] b[i]).provider_id@ == requested->0) {
        requested
    } else if k >= 0 {
        Some(b[k].provider_id@)
    } else if b.len() > 0 {
        Some(b[0].provider_id@)
    } else {
        None
    }
}

pub open spec fn key_is(id: Seq<char>) -> spec_fn((String, Vec<ProviderSessionRecord>)) -> bool {
    |e: (String, Vec<ProviderSessionRecord>)| e.0@ == id
}

/// The session list a lookup by provider finds.
pub open spec fn sessions_for(
    v: Seq<(String, Vec<ProviderSessionRecord>)>,
    p: Option<Seq<char>>,
) -> Seq<ProviderSessionRecord> {
    match p {
        Some(id) => {
            let k = first_index(v, key_is(id));
            if k >= 0 {
                v[k].1@
            } else {
                seq![]
            }
        },
        None => seq![],
    }
}

fn copy_records(v: &Vec<ProviderSessionRecord>) -> (r: Vec<ProviderSessionRecord>)
    ensures
        r@ == v@,
{
    let mut out: Vec<ProviderSessionRecord> = Vec::new();
    let mut i: usize = 0;
    while i < v.len()
        invariant
            i <= v.len(),
            out@ == v@.subrange(0, i as int),
        decreases v.len() - i,
    {
        out.push(copy_record(&v[i]));
        assert(out@ =~= v@.subrange(0, i + 1));
        i = i + 1;
    }
    assert(out@ =~= v@);
    out
}

fn copy_buckets(v: &Vec<ProviderBucket>) -> (r: Vec<ProviderBucket>)
    ensures
        r@ == v@,
{
    let mut out: Vec<ProviderBucket> = Vec::new();
    let mut i: usize = 0;
    while i < v.len()
        invariant
            i <= v.len(),
            out@ == v@.subrange(0, i as int),
        decreases v.len() - i,
    {
        out.push(copy_bucket(&v[i]));
        assert(out@ =~= v@.subrange(0, i + 1));
        i = i + 1;
    }
    assert(out@ =~= v@);
    out
}

impl ProviderScan {
    /// What the provider cards show: all cards, the selected provider (see
    /// [`selected_provider`]) and its sessions.
    pub fn workspace(&self, requested_provider: Option<&str>) -> (r: ProviderWorkspaceSnapshot)
        ensures
            r.provider_buckets@ == self.buckets@,
            opt_chars(r.selected_provider_id) == selected_provider(
                self.buckets@,
                match requested_provider {
                    Some(p) => Some(p@),
                    None => None,
                },
            ),
            r.provider_sessions@ == sessions_for(
                self.sessions_by_provider@,
                opt_chars(r.selected_provider_id),
            ),
    {
        let b = &self.buckets;
        let ghost req = match requested_provider {
            Some(p) => Some(p@),
            None => None,
        };
        let mut selected: Option<String> = None;
        if let Some(p) = requested_provider {
            let mut i: usize = 0;
            while i < b.len() && !str_eq(b[i].provider_id.as_str(), p)
                invariant
                    i <= b@.len(),
                    forall|j: int| 0 <= j < i ==> (#[trigger] b@[j]).provider_id@ != p@,
                decreases b@.len() - i,
            {
                i = i + 1;
            }
            if i < b.len() {
                selected = Some(p.to_string());
            }
        }
        proof {
            if selected is None && req is Some {
                assert(!(exists|i: int| 0 <= i < b@.len() && (#[trigger] b@[i]).provider_id@ == req->0));
            }
        }
        if selected.is_none() {
            let mut k: usize = 0;
            while k < b.len() && !(!b[k].is_current && b[k].active_root_thread_count > 0)
                invariant
                    k <= b@.len(),
                    forall|j: int| 0 <= j < k ==> !(other_active())(#[trigger] b@[j]),
                decreases b@.len() - k,
            {
                k = k + 1;
            }
            proof {
                lemma_first_index(b@, other_active(), k as int);
            }
            if k < b.len() {
                selected = Some(b[k].provider_id.clone());
            } else if b.len() > 0 {
                selected = Some(b[0].provider_id.clone());
            }
        }
        let mut sessions: Vec<ProviderSessionRecord> = Vec::new();
        if let Some(id) = &selected {
            let v = &self.sessions_by_provider;
            let ghost pred = key_is(id@);
            let mut k: usize = 0;
            while k < v.len() && !str_eq(v[k].0.as_str(), id.as_str())
                invariant
                    k <= v@.len(),
                    pred == key_is(id@),
                    forall|j: int| 0 <= j < k ==> !pred(#[trigger] v@[j]),
                decreases v@.len() - k,
            {
                k = k + 1;
            }
            proof {
                lemma_first_index(v@, pred, k as int);
            }
            if k < v.len() {
                sessions = copy_records(&v[k].1);
            }
        }
        ProviderWorkspaceSnapshot {
            provider_buckets: copy_buckets(b),
            selected_provider_id: selected,
            provider_sessions: sessions,
        }
    }
}

// ---------------------------------------------------------------------------
// Laws
// ---------------------------------------------------------------------------

/// In a scan the official provider's card comes before every other card, among cards of
/// the same kind the current provider's comes first, and no provider has two cards.
pub proof fn law_card_order(
    scan: ProviderScan,
    profile: Profile,
    current: Seq<char>,
    mappings: Seq<ReplicaMapping>,
    snaps: Seq<ThreadSnapshot>,
    links: Seq<(String, String)>,
)
    requires
        scan_ok(scan, profile, current, mappings, snaps, links),
    ensures
        forall|i: int, j: int|
            0 <= i < j < scan.buckets@.len() ==> {
                &&& (official((#[trigger] scan.buckets@[j]).provider_id@) ==> official(
                    (#[trigger] scan.buckets@[i]).provider_id@,
                ))
                &&& (official(scan.buckets@[i].provider_id@) == official(
                    scan.buckets@[j].provider_id@,
                ) && scan.buckets@[j].is_current ==> scan.buckets@[i].is_current)
                &&& scan.buckets@[i].provider_id@ != scan.buckets@[j].provider_id@
            },
{
    assert forall|i: int, j: int| 0 <= i < j < scan.buckets@.len() implies {
        &&& (official((#[trigger] scan.buckets@[j]).provider_id@) ==> official(
            (#[trigger] scan.buckets@[i]).provider_id@,
        ))
        &&& (official(scan.buckets@[i].provider_id@) == official(scan.buckets@[j].provider_id@)
            && scan.buckets@[j].is_current ==> scan.buckets@[i].is_current)
        &&& scan.buckets@[i].provider_id@ != scan.buckets@[j].provider_id@
    } by {
        let a = scan.buckets@[i];
        let b = scan.buckets@[j];
        assert(bucket_before(a, b));
        assert(bucket_ok(a, profile, current, mappings, snaps));
        assert(bucket_ok(b, profile, current, mappings, snaps));
        if a.provider_id@ == b.provider_id@ {
            lemma_before_same_id(a, b);
        }
    }
}

} // verus!
