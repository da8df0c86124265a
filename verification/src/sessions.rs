//! Codex threads as read from a profile's rollout files, and the session list that merges
//! them across profiles.
use vstd::prelude::*;

use crate::models::{Profile, SessionLocation, SessionRecord, ThreadSourceKind};
use crate::text::{clone_opt, less_than, lex_lt, chars_of, str_eq};

verus! {

/// One thread of a Codex home, as its rollout file describes it.
#[derive(Debug, Clone)]
pub struct ThreadSnapshot {
    pub thread_id: String,
    pub title: String,
    pub cwd: Option<String>,
    pub provider_id: Option<String>,
    pub updated_at: Option<String>,
    pub archived: bool,
    pub size_bytes: u64,
    pub content_sha256: String,
    pub raw_sha256: String,
    pub source_kind: ThreadSourceKind,
    pub agent_nickname: Option<String>,
    pub parent_thread_id: Option<String>,
    pub rollout_path: String,
    pub normalized_lines: Vec<String>,
}

/// A session record as the contracts see it: its locations as a sequence.
pub struct RecordModel {
    pub thread_id: String,
    pub title: String,
    pub cwd: Option<String>,
    pub provider_id: Option<String>,
    pub updated_at: Option<String>,
    pub archived: bool,
    pub size_bytes: u64,
    pub sha256: String,
    pub locations: Seq<SessionLocation>,
}

pub open spec fn model_of(r: SessionRecord) -> RecordModel {
    RecordModel {
        thread_id: r.thread_id,
        title: r.title,
        cwd: r.cwd,
        provider_id: r.provider_id,
        updated_at: r.updated_at,
        archived: r.archived,
        size_bytes: r.size_bytes,
        sha256: r.sha256,
        locations: r.locations@,
    }
}

/// The location of a profile.
pub open spec fn location_of(p: Profile) -> SessionLocation {
    SessionLocation { profile_id: p.id, profile_name: p.name, provider_id: p.provider_id }
}

/// The record of a thread as seen in one profile.
pub open spec fn record_of(s: ThreadSnapshot, p: Profile) -> RecordModel {
    RecordModel {
        thread_id: s.thread_id,
        title: s.title,
        cwd: s.cwd,
        provider_id: s.provider_id,
        updated_at: s.updated_at,
        archived: s.archived,
        size_bytes: s.size_bytes,
        sha256: s.content_sha256,
        locations: seq![location_of(p)],
    }
}

impl ThreadSnapshot {
    /// The session record of this thread in `profile`.
    pub fn to_record(&self, profile: &Profile) -> (r: SessionRecord)
        ensures
            model_of(r) == record_of(*self, *profile),
    {
        let loc = SessionLocation {
            profile_id: profile.id.clone(),
            profile_name: profile.name.clone(),
            provider_id: profile.provider_id.clone(),
        };
        let ghost l = loc;
        let mut locations: Vec<SessionLocation> = Vec::new();
        locations.push(loc);
        assert(locations@ =~= seq![l]);
        SessionRecord {
            thread_id: self.thread_id.clone(),
            title: self.title.clone(),
            cwd: clone_opt(&self.cwd),
            provider_id: clone_opt(&self.provider_id),
            updated_at: clone_opt(&self.updated_at),
            archived: self.archived,
            size_bytes: self.size_bytes,
            sha256: self.content_sha256.clone(),
            locations,
        }
    }
}

/// `a > b` in the order of optional texts (no text comes first).
pub open spec fn opt_later(a: Option<String>, b: Option<String>) -> bool {
    match (a, b) {
        (Some(x), Some(y)) => lex_lt(y@, x@),
        (Some(_), None) => true,
        _ => false,
    }
}

pub fn is_later(a: &Option<String>, b: &Option<String>) -> (r: bool)
    ensures
        r == opt_later(*a, *b),
{
    match (a, b) {
        (Some(x), Some(y)) => less_than(&chars_of(y.as_str()), &chars_of(x.as_str())),
        (Some(_), None) => true,
        _ => false,
    }
}

/// A thread seen again in another profile: its locations add up, and the details come from
/// whichever sighting was updated later (the earlier one on a tie).
pub open spec fn combine(old: RecordModel, new: RecordModel) -> RecordModel {
    let locs = old.locations + new.locations;
    if opt_later(new.updated_at, old.updated_at) {
        RecordModel {
            thread_id: old.thread_id,
            title: new.title,
            cwd: new.cwd,
            provider_id: new.provider_id,
            updated_at: new.updated_at,
            archived: new.archived,
            size_bytes: new.size_bytes,
            sha256: new.sha256,
            locations: locs,
        }
    } else {
        RecordModel {
            thread_id: old.thread_id,
            title: old.title,
            cwd: old.cwd,
            provider_id: old.provider_id,
            updated_at: old.updated_at,
            archived: old.archived,
            size_bytes: old.size_bytes,
            sha256: old.sha256,
            locations: locs,
        }
    }
}

/// The position of the record of a thread, or -1.
pub open spec fn model_index(acc: Seq<RecordModel>, id: Seq<char>) -> int
    decreases acc.len(),
{
    if acc.len() == 0 {
        -1
    } else if acc.last().thread_id@ == id {
        acc.len() - 1
    } else {
        model_index(acc.drop_last(), id)
    }
}

pub proof fn lemma_model_index(acc: Seq<RecordModel>, id: Seq<char>)
    ensures
        -1 <= model_index(acc, id) < acc.len(),
        model_index(acc, id) >= 0 ==> acc[model_index(acc, id)].thread_id@ == id,
        model_index(acc, id) < 0 ==> forall|i: int| 0 <= i < acc.len() ==> (#[trigger] acc[i]).thread_id@ != id,
    decreases acc.len(),
{
    if acc.len() > 0 && acc.last().thread_id@ != id {
        lemma_model_index(acc.drop_last(), id);
        if model_index(acc, id) < 0 {
            assert forall|i: int| 0 <= i < acc.len() implies (#[trigger] acc[i]).thread_id@ != id by {
                if i < acc.len() - 1 {
                    assert(acc[i] == acc.drop_last()[i]);
                }
            }
        }
    }
}

pub open spec fn merge_one(acc: Seq<RecordModel>, new: RecordModel) -> Seq<RecordModel> {
    let k = model_index(acc, new.thread_id@);
    if k < 0 {
        acc.push(new)
    } else {
        acc.update(k, combine(acc[k], new))
    }
}

/// The records after the threads of one more profile.
pub open spec fn merge_profile(acc: Seq<RecordModel>, p: Profile, snaps: Seq<ThreadSnapshot>) -> Seq<
    RecordModel,
>
    decreases snaps.len(),
{
    if snaps.len() == 0 {
        acc
    } else {
        merge_one(merge_profile(acc, p, snaps.drop_last()), record_of(snaps.last(), p))
    }
}

/// One record per thread over all profiles, in the order first seen.
pub open spec fn merge_all(groups: Seq<(Profile, Vec<ThreadSnapshot>)>) -> Seq<RecordModel>
    decreases groups.len(),
{
    if groups.len() == 0 {
        seq![]
    } else {
        merge_profile(merge_all(groups.drop_last()), groups.last().0, groups.last().1@)
    }
}

pub open spec fn models(v: Seq<SessionRecord>) -> Seq<RecordModel> {
    v.map_values(|r: SessionRecord| model_of(r))
}

fn find_record(v: &Vec<SessionRecord>, id: &str) -> (r: Option<usize>)
    ensures
        match r {
            Some(i) => model_index(models(v@), id@) == i as int && i < v@.len(),
            None => model_index(models(v@), id@) == -1,
        },
{
    let mut i: usize = v.len();
    assert(models(v@).subrange(0, v@.len() as int) =~= models(v@));
    while i > 0
        invariant
            i <= v.len(),
            model_index(models(v@).subrange(0, i as int), id@) == model_index(models(v@), id@),
        decreases i,
    {
        proof {
            assert(models(v@).subrange(0, i as int).drop_last() =~= models(v@).subrange(0, i - 1));
        }
        if str_eq(v[i - 1].thread_id.as_str(), id) {
            return Some(i - 1);
        }
        i = i - 1;
    }
    None
}

/// Adds one sighting of a thread to the records.
fn merge_record(records: &mut Vec<SessionRecord>, record: SessionRecord)
    requires
        old(records)@.len() < usize::MAX,
    ensures
        models(final(records)@) == merge_one(models(old(records)@), model_of(record)),
        final(records)@.len() <= old(records)@.len() + 1,
{
    match find_record(records, record.thread_id.as_str()) {
        None => {
            let ghost before = records@;
            records.push(record);
            assert(models(records@) =~= models(before).push(model_of(record)));
        },
        Some(k) => {
            let ghost before = records@;
            let mut ex = records.remove(k);
            assert(ex == before[k as int]);
            let ghost old_locs = ex.locations@;
            let later = is_later(&record.updated_at, &ex.updated_at);
            let SessionRecord {
                thread_id: _,
                title,
                cwd,
                provider_id,
                updated_at,
                archived,
                size_bytes,
                sha256,
                locations,
            } = record;
            let mut i: usize = 0;
            while i < locations.len()
                invariant
                    i <= locations@.len(),
                    ex.locations@ == old_locs + locations@.subrange(0, i as int),
                    ex.thread_id == before[k as int].thread_id,
                    ex.title == before[k as int].title,
                    ex.cwd == before[k as int].cwd,
                    ex.provider_id == before[k as int].provider_id,
                    ex.updated_at == before[k as int].updated_at,
                    ex.archived == before[k as int].archived,
                    ex.size_bytes == before[k as int].size_bytes,
                    ex.sha256 == before[k as int].sha256,
                decreases locations@.len() - i,
            {
                let l = &locations[i];
                ex.locations.push(
                    SessionLocation {
                        profile_id: l.profile_id.clone(),
                        profile_name: l.profile_name.clone(),
                        provider_id: l.provider_id.clone(),
                    },
                );
                assert(ex.locations@ =~= old_locs + locations@.subrange(0, i + 1));
                i = i + 1;
            }
            assert(locations@.subrange(0, locations@.len() as int) =~= locations@);
            if later {
                ex.title = title;
                ex.cwd = cwd;
                ex.provider_id = provider_id;
                ex.updated_at = updated_at;
                ex.archived = archived;
                ex.size_bytes = size_bytes;
                ex.sha256 = sha256;
            }
            records.insert(k, ex);
            proof {
                assert(records@ =~= before.update(k as int, ex));
                assert(models(records@) =~= models(before).update(
                    k as int,
                    combine(models(before)[k as int], model_of(record)),
                ));
            }
        },
    }
}

/// Newest first: no record was updated later than one before it.
pub open spec fn newest_first(v: Seq<SessionRecord>) -> bool {
    forall|i: int, j: int|
        0 <= i < j < v.len() ==> !opt_later((#[trigger] v[j]).updated_at, (#[trigger] v[i]).updated_at)
}

pub proof fn lemma_later_transitive(a: Option<String>, b: Option<String>, c: Option<String>)
    requires
        opt_later(a, b),
        opt_later(b, c),
    ensures
        opt_later(a, c),
{
    if a is Some && b is Some && c is Some {
        crate::text::lemma_lex_transitive(c->0@, b->0@, a->0@);
    }
}

pub proof fn lemma_later_total(a: Option<String>, b: Option<String>)
    ensures
        opt_later(a, b) || opt_later(b, a) || opt_chars_eq(a, b),
{
    if a is Some && b is Some {
        crate::text::lemma_lex_total(a->0@, b->0@);
    }
}

pub proof fn lemma_later_asymmetric(a: Option<String>, b: Option<String>)
    requires
        opt_later(a, b),
    ensures
        !opt_later(b, a),
{
    if a is Some && b is Some {
        crate::text::lemma_lex_asymmetric(b->0@, a->0@);
    }
}

pub open spec fn opt_chars_eq(a: Option<String>, b: Option<String>) -> bool {
    crate::text::opt_chars(a) == crate::text::opt_chars(b)
}

/// The records put newest first; each record is kept as it is, and records updated at the
/// same time keep their order.
fn sort_newest_first(v: Vec<SessionRecord>) -> (r: Vec<SessionRecord>)
    ensures
        newest_first(r@),
        r@.len() == v@.len(),
        forall|i: int| 0 <= i < r@.len() ==> v@.contains(#[trigger] r@[i]),
        forall|j: int| 0 <= j < v@.len() ==> r@.contains(#[trigger] v@[j]),
        forall|a: int, b: int|
            0 <= a < b < r@.len() && !opt_later((#[trigger] r@[a]).updated_at, (#[trigger] r@[b]).updated_at)
                ==> exists|pa: int, pb: int| 0 <= pa < pb < v@.len() && v@[pa] == r@[a] && v@[pb] == r@[b],
{
    let mut out: Vec<SessionRecord> = Vec::new();
    let ghost vs = v@;
    let ghost mut perm: Seq<int> = Seq::empty();
    let total = v.len();
    let mut rest = v;
    let mut n: usize = 0;
    assert(vs.len() == total);
    while rest.len() > 0
        invariant
            vs.len() <= usize::MAX,
            n + rest@.len() == vs.len(),
            rest@ == vs.subrange(n as int, vs.len() as int),
            out@.len() == n,
            newest_first(out@),
            forall|i: int| 0 <= i < out@.len() ==> exists|j: int| 0 <= j < n && #[trigger] out@[i] == vs[j],
            forall|j: int| 0 <= j < n ==> out@.contains(#[trigger] vs[j]),
            perm.len() == out@.len(),
            forall|i: int| 0 <= i < out@.len() ==> 0 <= #[trigger] perm[i] < n && out@[i] == vs[perm[i]],
            forall|a: int, b: int|
                0 <= a < b < out@.len() && !opt_later((#[trigger] out@[a]).updated_at, (#[trigger] out@[b]).updated_at)
                    ==> perm[a] < perm[b],
        decreases rest@.len(),
    {
        let x = rest.remove(0);
        assert(x == vs[n as int]);
        assert(rest@ =~= vs.subrange(n + 1, vs.len() as int));
        let mut j: usize = 0;
        while j < out.len() && !is_later(&x.updated_at, &out[j].updated_at)
            invariant
                j <= out@.len(),
                forall|i: int| 0 <= i < j ==> !opt_later(x.updated_at, (#[trigger] out@[i]).updated_at),
            decreases out@.len() - j,
        {
            j = j + 1;
        }
        let ghost old_out = out@;
        proof {
            assert forall|i: int| j <= i < old_out.len() implies !opt_later((#[trigger] old_out[i]).updated_at, x.updated_at) by {
                assert(opt_later(x.updated_at, old_out[j as int].updated_at));
                if i > j {
                    assert(!opt_later(old_out[i].updated_at, old_out[j as int].updated_at));
                    lemma_later_total(old_out[i].updated_at, old_out[j as int].updated_at);
                    if opt_later(old_out[j as int].updated_at, old_out[i].updated_at) {
                        lemma_later_transitive(x.updated_at, old_out[j as int].updated_at, old_out[i].updated_at);
                        lemma_later_asymmetric(x.updated_at, old_out[i].updated_at);
                    } else {
                        // Equal stamps: `x` is later than both.
                        if old_out[i].updated_at is Some {
                            assert(old_out[j as int].updated_at is Some);
                        }
                        lemma_later_asymmetric(x.updated_at, old_out[j as int].updated_at);
                    }
                } else {
                    lemma_later_asymmetric(x.updated_at, old_out[i].updated_at);
                }
            }
        }
        proof {
            assert forall|i: int| j <= i < old_out.len() implies opt_later(x.updated_at, (#[trigger] old_out[i]).updated_at) by {
                assert(opt_later(x.updated_at, old_out[j as int].updated_at));
                if i > j {
                    assert(!opt_later(old_out[i].updated_at, old_out[j as int].updated_at));
                    lemma_later_total(old_out[j as int].updated_at, old_out[i].updated_at);
                    if opt_later(old_out[j as int].updated_at, old_out[i].updated_at) {
                        lemma_later_transitive(x.updated_at, old_out[j as int].updated_at, old_out[i].updated_at);
                    }
                }
            }
        }
        let ghost old_perm = perm;
        out.insert(j, x);
        proof {
            perm = old_perm.insert(j as int, n as int);
            let o = out@;
            assert(o == old_out.insert(j as int, x));
            assert forall|i: int| 0 <= i < o.len() implies 0 <= #[trigger] perm[i] < n + 1 && o[i] == vs[perm[i]] by {
                if i < j {
                    assert(o[i] == old_out[i] && perm[i] == old_perm[i]);
                } else if i == j {
                } else {
                    assert(o[i] == old_out[i - 1] && perm[i] == old_perm[i - 1]);
                }
            }
            assert forall|a: int, b: int|
                0 <= a < b < o.len() && !opt_later((#[trigger] o[a]).updated_at, (#[trigger] o[b]).updated_at)
                    implies perm[a] < perm[b] by {
                if a < j && b < j {
                    assert(o[a] == old_out[a] && o[b] == old_out[b]);
                    assert(perm[a] == old_perm[a] && perm[b] == old_perm[b]);
                } else if a < j && b == j {
                    assert(perm[a] == old_perm[a]);
                    assert(old_perm[a] < n);
                } else if a < j && b > j {
                    assert(o[a] == old_out[a] && o[b] == old_out[b - 1]);
                    assert(perm[a] == old_perm[a] && perm[b] == old_perm[b - 1]);
                } else if a == j {
                    assert(o[b] == old_out[b - 1]);
                    assert(opt_later(x.updated_at, old_out[b - 1].updated_at));
                } else {
                    assert(o[a] == old_out[a - 1] && o[b] == old_out[b - 1]);
                    assert(perm[a] == old_perm[a - 1] && perm[b] == old_perm[b - 1]);
                }
            }
        }
        proof {
            let o = out@;
            assert(o == old_out.insert(j as int, x));
            assert forall|a: int, b: int| 0 <= a < b < o.len() implies !opt_later(
                (#[trigger] o[b]).updated_at,
                (#[trigger] o[a]).updated_at,
            ) by {
                if a < j && b < j {
                    assert(o[a] == old_out[a] && o[b] == old_out[b]);
                } else if a < j && b == j {
                    assert(o[a] == old_out[a]);
                } else if a < j && b > j {
                    assert(o[a] == old_out[a] && o[b] == old_out[b - 1]);
                } else if a == j {
                    assert(o[b] == old_out[b - 1]);
                } else {
                    assert(o[a] == old_out[a - 1] && o[b] == old_out[b - 1]);
                }
            }
            assert forall|i: int| 0 <= i < o.len() implies exists|w: int|
                0 <= w < n + 1 && #[trigger] o[i] == vs[w] by {
                if i < j {
                    assert(o[i] == old_out[i]);
                } else if i == j {
                    assert(o[i] == vs[n as int]);
                } else {
                    assert(o[i] == old_out[i - 1]);
                }
            }
            assert forall|w: int| 0 <= w < n + 1 implies o.contains(#[trigger] vs[w]) by {
                if w < n {
                    assert(old_out.contains(vs[w]));
                    let i = choose|i: int| 0 <= i < old_out.len() && old_out[i] == vs[w];
                    if i < j {
                        assert(o[i] == vs[w]);
                    } else {
                        assert(o[i + 1] == vs[w]);
                    }
                } else {
                    assert(o[j as int] == vs[w]);
                }
            }
        }
        n = n + 1;
    }
    proof {
        assert forall|i: int| 0 <= i < out@.len() implies vs.contains(#[trigger] out@[i]) by {
            let w = choose|w: int| 0 <= w < n && out@[i] == vs[w];
        }
        assert forall|a: int, b: int|
            0 <= a < b < out@.len() && !opt_later((#[trigger] out@[a]).updated_at, (#[trigger] out@[b]).updated_at)
                implies exists|pa: int, pb: int| 0 <= pa < pb < vs.len() && vs[pa] == out@[a] && vs[pb] == out@[b] by {
            assert(0 <= perm[a] < perm[b] < vs.len() && vs[perm[a]] == out@[a] && vs[perm[b]] == out@[b]);
        }
    }
    out
}
/// Newest first: no thread was updated later than one before it.
pub open spec fn snapshots_newest_first(v: Seq<ThreadSnapshot>) -> bool {
    forall|i: int, j: int|
        0 <= i < j < v.len() ==> !opt_later((#[trigger] v[j]).updated_at, (#[trigger] v[i]).updated_at)
}

/// The threads put newest first, each kept as it is.
fn sort_snapshots_newest_first(v: Vec<ThreadSnapshot>) -> (r: Vec<ThreadSnapshot>)
    ensures
        snapshots_newest_first(r@),
        r@.len() == v@.len(),
        forall|i: int| 0 <= i < r@.len() ==> v@.contains(#[trigger] r@[i]),
        forall|j: int| 0 <= j < v@.len() ==> r@.contains(#[trigger] v@[j]),
{
    let mut out: Vec<ThreadSnapshot> = Vec::new();
    let ghost vs = v@;
    let total = v.len();
    let mut rest = v;
    let mut n: usize = 0;
    assert(vs.len() == total);
    while rest.len() > 0
        invariant
            vs.len() <= usize::MAX,
            n + rest@.len() == vs.len(),
            rest@ == vs.subrange(n as int, vs.len() as int),
            out@.len() == n,
            snapshots_newest_first(out@),
            forall|i: int| 0 <= i < out@.len() ==> exists|j: int| 0 <= j < n && #[trigger] out@[i] == vs[j],
            forall|j: int| 0 <= j < n ==> out@.contains(#[trigger] vs[j]),
        decreases rest@.len(),
    {
        let x = rest.remove(0);
        assert(x == vs[n as int]);
        assert(rest@ =~= vs.subrange(n + 1, vs.len() as int));
        let mut j: usize = 0;
        while j < out.len() && !is_later(&x.updated_at, &out[j].updated_at)
            invariant
                j <= out@.len(),
                forall|i: int| 0 <= i < j ==> !opt_later(x.updated_at, (#[trigger] out@[i]).updated_at),
            decreases out@.len() - j,
        {
            j = j + 1;
        }
        let ghost old_out = out@;
        proof {
            assert forall|i: int| j <= i < old_out.len() implies !opt_later((#[trigger] old_out[i]).updated_at, x.updated_at) by {
                assert(opt_later(x.updated_at, old_out[j as int].updated_at));
                if i > j {
                    assert(!opt_later(old_out[i].updated_at, old_out[j as int].updated_at));
                    lemma_later_total(old_out[i].updated_at, old_out[j as int].updated_at);
                    if opt_later(old_out[j as int].updated_at, old_out[i].updated_at) {
                        lemma_later_transitive(x.updated_at, old_out[j as int].updated_at, old_out[i].updated_at);
                        lemma_later_asymmetric(x.updated_at, old_out[i].updated_at);
                    } else {
                        // Equal stamps: `x` is later than both.
                        if old_out[i].updated_at is Some {
                            assert(old_out[j as int].updated_at is Some);
                        }
                        lemma_later_asymmetric(x.updated_at, old_out[j as int].updated_at);
                    }
                } else {
                    lemma_later_asymmetric(x.updated_at, old_out[i].updated_at);
                }
            }
        }
        out.insert(j, x);
        proof {
            let o = out@;
            assert(o == old_out.insert(j as int, x));
            assert forall|a: int, b: int| 0 <= a < b < o.len() implies !opt_later(
                (#[trigger] o[b]).updated_at,
                (#[trigger] o[a]).updated_at,
            ) by {
                if a < j && b < j {
                    assert(o[a] == old_out[a] && o[b] == old_out[b]);
                } else if a < j && b == j {
                    assert(o[a] == old_out[a]);
                } else if a < j && b > j {
                    assert(o[a] == old_out[a] && o[b] == old_out[b - 1]);
                } else if a == j {
                    assert(o[b] == old_out[b - 1]);
                } else {
                    assert(o[a] == old_out[a - 1] && o[b] == old_out[b - 1]);
                }
            }
            assert forall|i: int| 0 <= i < o.len() implies exists|w: int|
                0 <= w < n + 1 && #[trigger] o[i] == vs[w] by {
                if i < j {
                    assert(o[i] == old_out[i]);
                } else if i == j {
                    assert(o[i] == vs[n as int]);
                } else {
                    assert(o[i] == old_out[i - 1]);
                }
            }
            assert forall|w: int| 0 <= w < n + 1 implies o.contains(#[trigger] vs[w]) by {
                if w < n {
                    assert(old_out.contains(vs[w]));
                    let i = choose|i: int| 0 <= i < old_out.len() && old_out[i] == vs[w];
                    if i < j {
                        assert(o[i] == vs[w]);
                    } else {
                        assert(o[i + 1] == vs[w]);
                    }
                } else {
                    assert(o[j as int] == vs[w]);
                }
            }
        }
        n = n + 1;
    }
    proof {
        assert forall|i: int| 0 <= i < out@.len() implies vs.contains(#[trigger] out@[i]) by {
            let w = choose|w: int| 0 <= w < n && out@[i] == vs[w];
        }
    }
    out
}

/// The first thread with each id, or -1 (see [`has_earlier_id`]).
pub open spec fn has_earlier_id(v: Seq<ThreadSnapshot>, i: int) -> bool {
    exists|j: int| 0 <= j < i && (#[trigger] v[j]).thread_id@ == v[i].thread_id@
}

/// A home's threads as listed: newest first, one per thread id. Where a thread has several
/// rollouts, the one kept was updated no earlier than any other.
pub fn newest_unique_snapshots(v: Vec<ThreadSnapshot>) -> (r: Vec<ThreadSnapshot>)
    ensures
        snapshots_newest_first(r@),
        forall|a: int, b: int| 0 <= a < b < r@.len() ==> (#[trigger] r@[a]).thread_id@ != (#[trigger] r@[b]).thread_id@,
        forall|i: int| 0 <= i < r@.len() ==> v@.contains(#[trigger] r@[i]),
        forall|j: int|
            0 <= j < v@.len() ==> exists|i: int|
                0 <= i < r@.len() && (#[trigger] r@[i]).thread_id@ == (#[trigger] v@[j]).thread_id@ && !opt_later(
                    v@[j].updated_at,
                    r@[i].updated_at,
                ),
{
    let ghost vs = v@;
    let sorted = sort_snapshots_newest_first(v);
    let ghost ss = sorted@;
    let mut out: Vec<ThreadSnapshot> = Vec::new();
    let mut seen: Vec<String> = Vec::new();
    let ghost mut idx: Seq<int> = Seq::empty();
    let mut n: usize = 0;
    let mut rest = sorted;
    let total = rest.len();
    assert(ss.len() == total);
    while rest.len() > 0
        invariant
            ss.len() <= usize::MAX,
            n + rest@.len() == ss.len(),
            rest@ == ss.subrange(n as int, ss.len() as int),
            seen@.len() == out@.len(),
            idx.len() == out@.len(),
            forall|t: int| 0 <= t < out@.len() ==> (#[trigger] seen@[t])@ == out@[t].thread_id@,
            forall|t: int| 0 <= t < idx.len() ==> 0 <= #[trigger] idx[t] < n && out@[t] == ss[idx[t]],
            forall|a: int, b: int| 0 <= a < b < idx.len() ==> #[trigger] idx[a] < #[trigger] idx[b],
            forall|t: int, w: int| 0 <= t < idx.len() && 0 <= w < idx[t] ==> (#[trigger] ss[w]).thread_id@ != (#[trigger] out@[t]).thread_id@,
            forall|w: int| 0 <= w < n ==> crate::text::has_text(seen@, (#[trigger] ss[w]).thread_id@),
        decreases rest@.len(),
    {
        let x = rest.remove(0);
        assert(x == ss[n as int]);
        assert(rest@ =~= ss.subrange(n + 1, ss.len() as int));
        let dup = crate::text::contains_text(&seen, &x.thread_id);
        if !dup {
            let ghost before = out@;
            let ghost seen_before = seen@;
            seen.push(x.thread_id.clone());
            out.push(x);
            proof {
                idx = idx.push(n as int);
                assert forall|t: int, w: int| 0 <= t < idx.len() && 0 <= w < idx[t] implies (#[trigger] ss[w]).thread_id@
                    != (#[trigger] out@[t]).thread_id@ by {
                    if t == idx.len() - 1 {
                        assert(out@[t] == ss[n as int]);
                        if ss[w].thread_id@ == ss[n as int].thread_id@ {
                            assert(crate::text::has_text(seen_before, ss[w].thread_id@));
                        }
                    } else {
                        assert(out@[t] == before[t]);
                    }
                }
                assert forall|w: int| 0 <= w < n + 1 implies crate::text::has_text(seen@, (#[trigger] ss[w]).thread_id@) by {
                    if w < n {
                        let k = choose|k: int| 0 <= k < seen_before.len() && (#[trigger] seen_before[k])@ == ss[w].thread_id@;
                        assert(seen@[k] == seen_before[k]);
                    } else {
                        assert(seen@[seen_before.len() as int]@ == ss[w].thread_id@);
                    }
                }
                assert forall|t: int| 0 <= t < out@.len() implies (#[trigger] seen@[t])@ == out@[t].thread_id@ by {
                    if t < before.len() {
                        assert(seen@[t] == seen_before[t] && out@[t] == before[t]);
                    }
                }
                assert forall|t: int| 0 <= t < idx.len() implies 0 <= #[trigger] idx[t] < n + 1 && out@[t] == ss[idx[t]] by {
                    if t < before.len() {
                        assert(out@[t] == before[t]);
                    }
                }
            }
        }
        n = n + 1;
    }
    proof {
        assert forall|a: int, b: int| 0 <= a < b < out@.len() implies (#[trigger] out@[a]).thread_id@
            != (#[trigger] out@[b]).thread_id@ by {
            assert(idx[a] < idx[b]);
            assert(out@[a] == ss[idx[a]]);
        }
        assert forall|a: int, b: int| 0 <= a < b < out@.len() implies !opt_later(
            (#[trigger] out@[b]).updated_at,
            (#[trigger] out@[a]).updated_at,
        ) by {
            assert(idx[a] < idx[b]);
            assert(!opt_later(ss[idx[b]].updated_at, ss[idx[a]].updated_at));
        }
        assert forall|i: int| 0 <= i < out@.len() implies vs.contains(#[trigger] out@[i]) by {
            assert(out@[i] == ss[idx[i]]);
            assert(vs.contains(ss[idx[i]]));
        }
        assert forall|j: int| 0 <= j < vs.len() implies exists|i: int|
            0 <= i < out@.len() && (#[trigger] out@[i]).thread_id@ == (#[trigger] vs[j]).thread_id@ && !opt_later(
                vs[j].updated_at,
                out@[i].updated_at,
            ) by {
            assert(ss.contains(vs[j]));
            let w = choose|w: int| 0 <= w < ss.len() && ss[w] == vs[j];
            assert(crate::text::has_text(seen@, ss[w].thread_id@));
            let t = choose|t: int| 0 <= t < seen@.len() && (#[trigger] seen@[t])@ == ss[w].thread_id@;
            assert(out@[t].thread_id@ == ss[w].thread_id@);
            if idx[t] > w {
                assert(ss[w].thread_id@ != out@[t].thread_id@);
            }
            if idx[t] < w {
                assert(!opt_later(ss[w].updated_at, ss[idx[t]].updated_at));
            }
            if idx[t] == w {
                if let Some(u) = ss[w].updated_at {
                    crate::text::lemma_lex_irreflexive(u@);
                }
            }
            assert(out@[t].thread_id@ == vs[j].thread_id@ && !opt_later(vs[j].updated_at, out@[t].updated_at));
        }
    }
    out
}


/// The session list over all profiles: one record per thread, with every profile it is in,
/// newest first; records updated at the same time keep the order in which the profiles
/// and their threads first list them. `groups` holds each available profile with the
/// threads of its home.
pub fn aggregate_sessions(groups: &Vec<(Profile, Vec<ThreadSnapshot>)>) -> (r: Vec<SessionRecord>)
    requires
        total_threads(groups@) < usize::MAX,
    ensures
        newest_first(r@),
        r@.len() == merge_all(groups@).len(),
        forall|i: int| 0 <= i < r@.len() ==> merge_all(groups@).contains(model_of(#[trigger] r@[i])),
        forall|j: int| 0 <= j < merge_all(groups@).len() ==> models(r@).contains(#[trigger] merge_all(groups@)[j]),
        forall|a: int, b: int|
            0 <= a < b < r@.len() && !opt_later((#[trigger] r@[a]).updated_at, (#[trigger] r@[b]).updated_at)
                ==> exists|pa: int, pb: int|
                0 <= pa < pb < merge_all(groups@).len() && merge_all(groups@)[pa] == model_of(r@[a])
                    && merge_all(groups@)[pb] == model_of(r@[b]),
{
    let mut records: Vec<SessionRecord> = Vec::new();
    let mut g: usize = 0;
    assert(models(records@) =~= merge_all(groups@.subrange(0, 0)));
    while g < groups.len()
        invariant
            g <= groups@.len(),
            total_threads(groups@) < usize::MAX,
            models(records@) == merge_all(groups@.subrange(0, g as int)),
            records@.len() <= total_threads(groups@.subrange(0, g as int)),
        decreases groups@.len() - g,
    {
        let (p, snaps) = &groups[g];
        proof {
            assert(groups@.subrange(0, g + 1).drop_last() =~= groups@.subrange(0, g as int));
            lemma_total_threads_prefix(groups@, g + 1);
        }
        let ghost acc = models(records@);
        let mut i: usize = 0;
        while i < snaps.len()
            invariant
                i <= snaps@.len(),
                (*p, *snaps) == groups@[g as int],
                g < groups@.len(),
                total_threads(groups@.subrange(0, g + 1)) <= total_threads(groups@),
                total_threads(groups@) < usize::MAX,
                total_threads(groups@.subrange(0, g + 1)) == total_threads(groups@.subrange(0, g as int)) + snaps@.len(),
                models(records@) == merge_profile(acc, *p, snaps@.subrange(0, i as int)),
                records@.len() <= total_threads(groups@.subrange(0, g as int)) + i,
            decreases snaps@.len() - i,
        {
            proof {
                assert(snaps@.subrange(0, i + 1).drop_last() =~= snaps@.subrange(0, i as int));
            }
            let rec = snaps[i].to_record(p);
            merge_record(&mut records, rec);
            i = i + 1;
        }
        assert(snaps@.subrange(0, snaps@.len() as int) =~= snaps@);
        g = g + 1;
    }
    assert(groups@.subrange(0, groups@.len() as int) =~= groups@);
    let ghost unsorted = records@;
    let sorted = sort_newest_first(records);
    proof {
        let m = merge_all(groups@);
        assert forall|i: int| 0 <= i < sorted@.len() implies m.contains(model_of(#[trigger] sorted@[i])) by {
            assert(unsorted.contains(sorted@[i]));
            let j = choose|j: int| 0 <= j < unsorted.len() && unsorted[j] == sorted@[i];
            assert(models(unsorted)[j] == model_of(sorted@[i]));
        }
        assert forall|j: int| 0 <= j < m.len() implies models(sorted@).contains(#[trigger] m[j]) by {
            assert(m[j] == model_of(unsorted[j]));
            assert(sorted@.contains(unsorted[j]));
            let i = choose|i: int| 0 <= i < sorted@.len() && sorted@[i] == unsorted[j];
            assert(models(sorted@)[i] == m[j]);
        }
        assert forall|a: int, b: int|
            0 <= a < b < sorted@.len() && !opt_later((#[trigger] sorted@[a]).updated_at, (#[trigger] sorted@[b]).updated_at)
                implies exists|pa: int, pb: int|
                0 <= pa < pb < m.len() && m[pa] == model_of(sorted@[a]) && m[pb] == model_of(sorted@[b]) by {
            let (pa, pb) = choose|pa: int, pb: int| 0 <= pa < pb < unsorted.len() && unsorted[pa] == sorted@[a] && unsorted[pb] == sorted@[b];
            assert(m[pa] == model_of(unsorted[pa]) && m[pb] == model_of(unsorted[pb]));
        }
    }
    sorted
}

/// The number of threads over all groups.
pub open spec fn total_threads(groups: Seq<(Profile, Vec<ThreadSnapshot>)>) -> nat
    decreases groups.len(),
{
    if groups.len() == 0 {
        0
    } else {
        total_threads(groups.drop_last()) + groups.last().1@.len()
    }
}

pub proof fn lemma_total_threads_prefix(groups: Seq<(Profile, Vec<ThreadSnapshot>)>, n: int)
    requires
        0 <= n <= groups.len(),
    ensures
        total_threads(groups.subrange(0, n)) <= total_threads(groups),
    decreases groups.len() - n,
{
    if n < groups.len() {
        lemma_total_threads_prefix(groups, n + 1);
        assert(groups.subrange(0, n + 1).drop_last() =~= groups.subrange(0, n));
    } else {
        assert(groups.subrange(0, n) =~= groups);
    }
}

pub open spec fn distinct_threads(acc: Seq<RecordModel>) -> bool {
    forall|i: int, j: int|
        0 <= i < j < acc.len() ==> (#[trigger] acc[i]).thread_id@ != (#[trigger] acc[j]).thread_id@
}

pub proof fn lemma_merge_one_distinct(acc: Seq<RecordModel>, new: RecordModel)
    requires
        distinct_threads(acc),
    ensures
        distinct_threads(merge_one(acc, new)),
{
    lemma_model_index(acc, new.thread_id@);
    let r = merge_one(acc, new);
    assert forall|i: int, j: int| 0 <= i < j < r.len() implies (#[trigger] r[i]).thread_id@
        != (#[trigger] r[j]).thread_id@ by {
        if model_index(acc, new.thread_id@) < 0 {
            if j == acc.len() {
                assert(acc[i].thread_id@ != new.thread_id@);
            } else {
                assert(r[i] == acc[i] && r[j] == acc[j]);
            }
        } else {
            let k = model_index(acc, new.thread_id@);
            assert(r[i].thread_id == acc[i].thread_id);
            assert(r[j].thread_id == acc[j].thread_id);
        }
    }
}

pub proof fn lemma_merge_profile_distinct(acc: Seq<RecordModel>, p: Profile, snaps: Seq<ThreadSnapshot>)
    requires
        distinct_threads(acc),
    ensures
        distinct_threads(merge_profile(acc, p, snaps)),
    decreases snaps.len(),
{
    if snaps.len() > 0 {
        lemma_merge_profile_distinct(acc, p, snaps.drop_last());
        lemma_merge_one_distinct(merge_profile(acc, p, snaps.drop_last()), record_of(snaps.last(), p));
    }
}

/// The details of a record: all but its thread and its locations.
pub open spec fn details(r: RecordModel) -> (String, Option<String>, Option<String>, Option<String>, bool, u64, String) {
    (r.title, r.cwd, r.provider_id, r.updated_at, r.archived, r.size_bytes, r.sha256)
}

/// Seeing a thread again keeps its thread and adds up its locations; all of its details
/// come from one sighting: the later one, or the earlier one where neither is later.
pub proof fn law_details_follow_the_later_sighting(old: RecordModel, new: RecordModel)
    ensures
        combine(old, new).thread_id == old.thread_id,
        combine(old, new).locations == old.locations + new.locations,
        opt_later(new.updated_at, old.updated_at) ==> details(combine(old, new)) == details(new),
        !opt_later(new.updated_at, old.updated_at) ==> details(combine(old, new)) == details(old),
{
}

/// Each sighting of a thread, in the order the groups list them.
pub open spec fn sightings(groups: Seq<(Profile, Vec<ThreadSnapshot>)>) -> Seq<RecordModel>
    decreases groups.len(),
{
    if groups.len() == 0 {
        seq![]
    } else {
        sightings(groups.drop_last()) + groups.last().1@.map_values(
            |s: ThreadSnapshot| record_of(s, groups.last().0),
        )
    }
}

/// The record's details are those of one sighting of its thread.
pub open spec fn from_one_sighting(seen: Seq<RecordModel>, r: RecordModel) -> bool {
    exists|k: int| 0 <= k < seen.len() && (#[trigger] seen[k]).thread_id@ == r.thread_id@ && details(seen[k]) == details(r)
}

/// No sighting of the record's thread was updated later than the record.
pub open spec fn none_later(seen: Seq<RecordModel>, r: RecordModel) -> bool {
    forall|k: int| 0 <= k < seen.len() && (#[trigger] seen[k]).thread_id@ == r.thread_id@ ==> !opt_later(seen[k].updated_at, r.updated_at)
}

/// Every sighting's thread has a record.
pub open spec fn all_recorded(acc: Seq<RecordModel>, seen: Seq<RecordModel>) -> bool {
    forall|k: int| 0 <= k < seen.len() ==> exists|i: int| 0 <= i < acc.len() && (#[trigger] acc[i]).thread_id@ == (#[trigger] seen[k]).thread_id@
}

pub open spec fn latest_records(acc: Seq<RecordModel>, seen: Seq<RecordModel>) -> bool {
    &&& distinct_threads(acc)
    &&& all_recorded(acc, seen)
    &&& forall|i: int| 0 <= i < acc.len() ==> from_one_sighting(seen, #[trigger] acc[i]) && none_later(seen, acc[i])
}

proof fn lemma_later_irreflexive(a: Option<String>)
    ensures
        !opt_later(a, a),
{
    if let Some(u) = a {
        crate::text::lemma_lex_irreflexive(u@);
    }
}

proof fn lemma_merge_one_recorded(acc: Seq<RecordModel>, seen: Seq<RecordModel>, new: RecordModel)
    requires
        all_recorded(acc, seen),
    ensures
        all_recorded(merge_one(acc, new), seen.push(new)),
{
    let k = model_index(acc, new.thread_id@);
    lemma_model_index(acc, new.thread_id@);
    let acc2 = merge_one(acc, new);
    let s2 = seen.push(new);
    assert forall|kk: int| 0 <= kk < s2.len() implies exists|i: int| 0 <= i < acc2.len() && (#[trigger] acc2[i]).thread_id@ == (#[trigger] s2[kk]).thread_id@ by {
        if kk < seen.len() {
            assert(s2[kk] == seen[kk]);
            let i = choose|i: int| 0 <= i < acc.len() && (#[trigger] acc[i]).thread_id@ == seen[kk].thread_id@;
            if k >= 0 && i == k {
                assert(acc2[i].thread_id == acc[i].thread_id);
            } else {
                assert(acc2[i] == acc[i]);
            }
        } else if k < 0 {
            assert(acc2[acc.len() as int] == new);
        } else {
            assert(acc2[k].thread_id == acc[k].thread_id);
        }
    }
}

/// The record of a thread seen for the first time.
proof fn lemma_first_sighting(acc: Seq<RecordModel>, seen: Seq<RecordModel>, new: RecordModel)
    requires
        all_recorded(acc, seen),
        forall|j: int| 0 <= j < acc.len() ==> (#[trigger] acc[j]).thread_id@ != new.thread_id@,
    ensures
        from_one_sighting(seen.push(new), new) && none_later(seen.push(new), new),
{
    lemma_later_irreflexive(new.updated_at);
    let s2 = seen.push(new);
    let n = seen.len() as int;
    assert(s2[n] == new);
    assert forall|kk: int| 0 <= kk < s2.len() && (#[trigger] s2[kk]).thread_id@ == new.thread_id@ implies !opt_later(s2[kk].updated_at, new.updated_at) by {
        if kk < n {
            assert(s2[kk] == seen[kk]);
            let j = choose|j: int| 0 <= j < acc.len() && (#[trigger] acc[j]).thread_id@ == (#[trigger] seen[kk]).thread_id@;
            assert(acc[j].thread_id@ != new.thread_id@);
        }
    }
}

/// The record of a thread seen again.
proof fn lemma_sighting_again(seen: Seq<RecordModel>, old: RecordModel, new: RecordModel)
    requires
        from_one_sighting(seen, old),
        none_later(seen, old),
        old.thread_id@ == new.thread_id@,
    ensures
        from_one_sighting(seen.push(new), combine(old, new)) && none_later(seen.push(new), combine(old, new)),
{
    lemma_later_irreflexive(new.updated_at);
    let s2 = seen.push(new);
    let n = seen.len() as int;
    let c = combine(old, new);
    assert(s2[n] == new);
    let w = choose|w: int| 0 <= w < seen.len() && (#[trigger] seen[w]).thread_id@ == old.thread_id@ && details(seen[w]) == details(old);
    if opt_later(new.updated_at, old.updated_at) {
        assert(s2[n].thread_id@ == c.thread_id@ && details(s2[n]) == details(c));
    } else {
        assert(s2[w] == seen[w]);
        assert(s2[w].thread_id@ == c.thread_id@ && details(s2[w]) == details(c));
    }
    assert forall|kk: int| 0 <= kk < s2.len() && (#[trigger] s2[kk]).thread_id@ == c.thread_id@ implies !opt_later(s2[kk].updated_at, c.updated_at) by {
        if kk < n {
            assert(s2[kk] == seen[kk]);
            assert(!opt_later(seen[kk].updated_at, old.updated_at));
            if opt_later(new.updated_at, old.updated_at) {
                if opt_later(seen[kk].updated_at, new.updated_at) {
                    lemma_later_transitive(seen[kk].updated_at, new.updated_at, old.updated_at);
                }
            }
        }
    }
}

/// A record of another thread stays as it is.
proof fn lemma_other_thread(seen: Seq<RecordModel>, r: RecordModel, new: RecordModel)
    requires
        from_one_sighting(seen, r),
        none_later(seen, r),
        r.thread_id@ != new.thread_id@,
    ensures
        from_one_sighting(seen.push(new), r) && none_later(seen.push(new), r),
{
    let s2 = seen.push(new);
    let w = choose|w: int| 0 <= w < seen.len() && (#[trigger] seen[w]).thread_id@ == r.thread_id@ && details(seen[w]) == details(r);
    assert(s2[w] == seen[w]);
    assert forall|kk: int| 0 <= kk < s2.len() && (#[trigger] s2[kk]).thread_id@ == r.thread_id@ implies !opt_later(s2[kk].updated_at, r.updated_at) by {
        if kk < seen.len() {
            assert(s2[kk] == seen[kk]);
        }
    }
}

proof fn lemma_merge_one_latest(acc: Seq<RecordModel>, seen: Seq<RecordModel>, new: RecordModel)
    requires
        latest_records(acc, seen),
    ensures
        latest_records(merge_one(acc, new), seen.push(new)),
{
    let k = model_index(acc, new.thread_id@);
    lemma_model_index(acc, new.thread_id@);
    lemma_merge_one_distinct(acc, new);
    lemma_merge_one_recorded(acc, seen, new);
    let acc2 = merge_one(acc, new);
    let s2 = seen.push(new);
    assert forall|i: int| 0 <= i < acc2.len() implies from_one_sighting(s2, #[trigger] acc2[i]) && none_later(s2, acc2[i]) by {
        if k < 0 && i == acc.len() {
            assert(acc2[i] == new);
            lemma_first_sighting(acc, seen, new);
        } else if k >= 0 && i == k {
            assert(acc2[i] == combine(acc[k], new));
            lemma_sighting_again(seen, acc[k], new);
        } else {
            assert(acc2[i] == acc[i]);
            if k >= 0 {
                if i < k {
                    assert(acc[i].thread_id@ != acc[k].thread_id@);
                } else {
                    assert(acc[k].thread_id@ != acc[i].thread_id@);
                }
            }
            lemma_other_thread(seen, acc[i], new);
        }
    }
}

proof fn lemma_merge_profile_latest(acc: Seq<RecordModel>, seen: Seq<RecordModel>, p: Profile, snaps: Seq<ThreadSnapshot>)
    requires
        latest_records(acc, seen),
    ensures
        latest_records(
            merge_profile(acc, p, snaps),
            seen + snaps.map_values(|s: ThreadSnapshot| record_of(s, p)),
        ),
    decreases snaps.len(),
{
    let f = |s: ThreadSnapshot| record_of(s, p);
    if snaps.len() == 0 {
        assert(seen + snaps.map_values(f) =~= seen);
    } else {
        lemma_merge_profile_latest(acc, seen, p, snaps.drop_last());
        lemma_merge_one_latest(
            merge_profile(acc, p, snaps.drop_last()),
            seen + snaps.drop_last().map_values(f),
            record_of(snaps.last(), p),
        );
        assert(seen + snaps.map_values(f) =~= (seen + snaps.drop_last().map_values(f)).push(record_of(snaps.last(), p)));
    }
}

/// In the session list, each thread's details (title, folder, provider, update time,
/// whether it is archived, size and digest) are those of one and the same sighting of it
/// in the profiles, and no sighting of it was updated later.
pub proof fn law_record_details_come_from_the_latest_sighting(groups: Seq<(Profile, Vec<ThreadSnapshot>)>)
    ensures
        forall|i: int| 0 <= i < merge_all(groups).len() ==> from_one_sighting(sightings(groups), #[trigger] merge_all(groups)[i])
            && none_later(sightings(groups), merge_all(groups)[i]),
    decreases groups.len(),
{
    lemma_all_latest(groups);
}

proof fn lemma_all_latest(groups: Seq<(Profile, Vec<ThreadSnapshot>)>)
    ensures
        latest_records(merge_all(groups), sightings(groups)),
    decreases groups.len(),
{
    if groups.len() > 0 {
        lemma_all_latest(groups.drop_last());
        lemma_merge_profile_latest(merge_all(groups.drop_last()), sightings(groups.drop_last()), groups.last().0, groups.last().1@);
    }
}

/// Every thread appears once in the session list, however many profiles it is in.
pub proof fn law_one_record_per_thread(groups: Seq<(Profile, Vec<ThreadSnapshot>)>)
    ensures
        distinct_threads(merge_all(groups)),
    decreases groups.len(),
{
    if groups.len() > 0 {
        law_one_record_per_thread(groups.drop_last());
        lemma_merge_profile_distinct(merge_all(groups.drop_last()), groups.last().0, groups.last().1@);
    }
}

// ---------------------------------------------------------------------------
// Files of a home
// ---------------------------------------------------------------------------

/// A rollout file: `rollout-*.jsonl`.
pub open spec fn rollout_name(name: Seq<char>) -> bool {
    crate::text::has_prefix(name, "rollout-"@) && crate::text::has_suffix(name, ".jsonl"@)
}

pub fn is_rollout_name(name: &str) -> (r: bool)
    ensures
        r == rollout_name(name@),
{
    let c = chars_of(name);
    crate::text::starts_with(&c, &crate::text::lit("rollout-")) && crate::text::ends_with(
        &c,
        &crate::text::lit(".jsonl"),
    )
}

pub open spec fn is_digit(c: char) -> bool {
    '0' <= c && c <= '9'
}

/// The value of a run of decimal digits.
pub open spec fn digits_value(s: Seq<char>) -> int
    decreases s.len(),
{
    if s.len() == 0 {
        0
    } else {
        digits_value(s.drop_last()) * 10 + (s.last() as int - '0' as int)
    }
}

/// The digits of an unsigned number's text: without a leading `+`.
pub open spec fn unsigned_digits(s: Seq<char>) -> Seq<char> {
    if s.len() > 0 && s[0] == '+' {
        s.drop_first()
    } else {
        s
    }
}

pub open spec fn all_digits(d: Seq<char>) -> bool {
    forall|i: int| 0 <= i < d.len() ==> is_digit(#[trigger] d[i])
}

/// What `u64::from_str` accepts: an optional `+` and at least one decimal digit, with a
/// value that fits.
pub open spec fn u64_text(s: Seq<char>) -> Option<int> {
    let d = unsigned_digits(s);
    if d.len() > 0 && all_digits(d) && digits_value(d) <= u64::MAX {
        Some(digits_value(d))
    } else {
        None
    }
}

/// The version of a state database file: `state_<version>.sqlite`.
pub open spec fn state_version(name: Seq<char>) -> Option<int> {
    if crate::text::has_prefix(name, "state_"@) && crate::text::has_suffix(name, ".sqlite"@) && name.len()
        >= 13 {
        u64_text(name.subrange(6, name.len() - 7))
    } else {
        None
    }
}

pub proof fn lemma_digits_value_nonneg(s: Seq<char>)
    requires
        forall|i: int| 0 <= i < s.len() ==> is_digit(#[trigger] s[i]),
    ensures
        digits_value(s) >= 0,
        s.len() > 0 ==> digits_value(s) >= digits_value(s.drop_last()),
    decreases s.len(),
{
    if s.len() > 0 {
        assert(is_digit(s[s.len() - 1]));
        lemma_digits_value_nonneg(s.drop_last());
    }
}

fn parse_u64(s: &Vec<char>) -> (r: Option<u64>)
    ensures
        match r {
            Some(v) => u64_text(s@) == Some(v as int),
            None => u64_text(s@) is None,
        },
{
    let start: usize = if s.len() > 0 && s[0] == '+' {
        1
    } else {
        0
    };
    let ghost d = unsigned_digits(s@);
    assert(d =~= s@.subrange(start as int, s@.len() as int));
    if start >= s.len() {
        return None;
    }
    let mut value: u64 = 0;
    let mut i: usize = start;
    while i < s.len()
        invariant
            start <= i <= s@.len(),
            d == s@.subrange(start as int, s@.len() as int),
            d == unsigned_digits(s@),
            forall|j: int| start <= j < i ==> is_digit(#[trigger] s@[j]),
            value as int == digits_value(s@.subrange(start as int, i as int)),
        decreases s@.len() - i,
    {
        let c = s[i];
        if !('0' <= c && c <= '9') {
            assert(!is_digit(d[i - start]));
            assert(!all_digits(d));
            return None;
        }
        let digit = (c as u32 - '0' as u32) as u64;
        assert(s@.subrange(start as int, i + 1).drop_last() =~= s@.subrange(start as int, i as int));
        proof {
            assert forall|j: int| 0 <= j < s@.subrange(start as int, i + 1).len() implies is_digit(
                #[trigger] s@.subrange(start as int, i + 1)[j],
            ) by {
                assert(s@.subrange(start as int, i + 1)[j] == s@[start + j]);
            }
        }
        if value > 1844674407370955161 || (value == 1844674407370955161 && digit > 5) {
            proof {
                let t = s@.subrange(start as int, i + 1);
                assert(t =~= d.take(i + 1 - start));
                assert(digits_value(t) == digits_value(t.drop_last()) * 10 + digit);
                assert(digits_value(t) > u64::MAX);
                if all_digits(d) {
                    lemma_digits_prefix_monotone(d, i + 1 - start);
                }
            }
            return None;
        }
        value = value * 10 + digit;
        i = i + 1;
    }
    assert(s@.subrange(start as int, s@.len() as int) =~= d);
    Some(value)
}

/// A longer run of digits is worth at least as much as its prefix.
pub proof fn lemma_digits_prefix_monotone(d: Seq<char>, n: int)
    requires
        0 <= n <= d.len(),
        forall|i: int| 0 <= i < d.len() ==> is_digit(#[trigger] d[i]),
    ensures
        digits_value(d) >= digits_value(d.take(n)),
    decreases d.len() - n,
{
    if n < d.len() {
        lemma_digits_prefix_monotone(d, n + 1);
        let t = d.take(n + 1);
        assert(t.drop_last() =~= d.take(n));
        assert forall|i: int| 0 <= i < t.len() implies is_digit(#[trigger] t[i]) by {
            assert(t[i] == d[i]);
        }
        lemma_digits_value_nonneg(t);
    } else {
        assert(d.take(n) =~= d);
    }
}

pub fn state_database_version(name: &str) -> (r: Option<u64>)
    ensures
        match r {
            Some(v) => state_version(name@) == Some(v as int),
            None => state_version(name@) is None,
        },
{
    let c = chars_of(name);
    if c.len() >= 13 && crate::text::starts_with(&c, &crate::text::lit("state_")) && crate::text::ends_with(
        &c,
        &crate::text::lit(".sqlite"),
    ) {
        parse_u64(&crate::text::slice_of(&c, 6, c.len() - 7))
    } else {
        None
    }
}

/// The newest state database among the files of a directory, by version; of equal versions
/// the last listed.
pub open spec fn newest_state_database(names: Seq<String>, i: int) -> bool {
    &&& 0 <= i < names.len()
    &&& state_version(names[i]@) is Some
    &&& forall|j: int|
        0 <= j < names.len() && state_version((#[trigger] names[j])@) is Some ==> state_version(names[j]@)->0
            <= state_version(names[i]@)->0 && (j > i ==> state_version(names[j]@)->0 < state_version(
            names[i]@,
        )->0)
}

pub fn latest_state_database(names: &Vec<String>) -> (r: Option<usize>)
    ensures
        match r {
            Some(i) => newest_state_database(names@, i as int),
            None => forall|j: int| 0 <= j < names@.len() ==> state_version((#[trigger] names@[j])@) is None,
        },
{
    let mut best: Option<(usize, u64)> = None;
    let mut i: usize = 0;
    while i < names.len()
        invariant
            i <= names@.len(),
            match best {
                None => forall|j: int| 0 <= j < i ==> state_version((#[trigger] names@[j])@) is None,
                Some((b, v)) => b < i && state_version(names@[b as int]@) == Some(v as int) && forall|j: int|
                    0 <= j < i && state_version((#[trigger] names@[j])@) is Some ==> state_version(
                        names@[j]@,
                    )->0 <= v && (j > b ==> state_version(names@[j]@)->0 < v),
            },
        decreases names@.len() - i,
    {
        match state_database_version(names[i].as_str()) {
            Some(v) => {
                let better = match best {
                    None => true,
                    Some((_, bv)) => v >= bv,
                };
                if better {
                    best = Some((i, v));
                }
            },
            None => {},
        }
        i = i + 1;
    }
    match best {
        Some((b, _)) => Some(b),
        None => None,
    }
}

} // verus!
