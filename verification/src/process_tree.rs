//! The process tree under the desktop client's main processes, stopped deepest first.
use vstd::prelude::*;

use crate::process::ProcessInfo;

verus! {

/// The pid is one of the keys.
pub open spec fn has_pid(depths: Seq<(u32, usize)>, pid: u32) -> bool {
    exists|k: int| 0 <= k < depths.len() && (#[trigger] depths[k]).0 == pid
}

pub open spec fn distinct_pids(depths: Seq<(u32, usize)>) -> bool {
    forall|a: int, b: int| 0 <= a < b < depths.len() ==> (#[trigger] depths[a]).0 != (#[trigger] depths[b]).0
}

/// The process has a parent, and it is among the pids.
pub open spec fn parent_in(p: ProcessInfo, pids: spec_fn(u32) -> bool) -> bool {
    match p.parent {
        Some(q) => pids(q),
        None => false,
    }
}

/// A process whose parent is among the pids.
pub open spec fn child_of_some(processes: Seq<ProcessInfo>, pid: u32, pids: spec_fn(u32) -> bool) -> bool {
    exists|k: int| 0 <= k < processes.len() && (#[trigger] processes[k]).pid == pid && parent_in(processes[k], pids)
}

/// The processes not yet among the keys.
pub open spec fn unseen(processes: Seq<ProcessInfo>, depths: Seq<(u32, usize)>) -> nat {
    processes.filter(|p: ProcessInfo| !has_pid(depths, p.pid)).len()
}

pub proof fn lemma_filter_fewer(
    s: Seq<ProcessInfo>,
    a: spec_fn(ProcessInfo) -> bool,
    b: spec_fn(ProcessInfo) -> bool,
    k: int,
)
    requires
        forall|x: ProcessInfo| #[trigger] b(x) ==> a(x),
        0 <= k < s.len() ==> a(s[k]) && !b(s[k]),
    ensures
        s.filter(b).len() <= s.filter(a).len(),
        0 <= k < s.len() ==> s.filter(b).len() < s.filter(a).len(),
    decreases s.len(),
{
    if s.len() > 0 {
        let t = s.drop_last();
        assert(s =~= t.push(s.last()));
        t.lemma_filter_push(s.last(), a);
        t.lemma_filter_push(s.last(), b);
        if k == s.len() - 1 {
            lemma_filter_fewer(t, a, b, -1);
        } else {
            lemma_filter_fewer(t, a, b, k);
        }
    }
}

/// Every key is a main process or a child of a key.
pub open spec fn justified(processes: Seq<ProcessInfo>, roots: Seq<u32>, depths: Seq<(u32, usize)>) -> bool {
    forall|k: int|
        0 <= k < depths.len() ==> roots.contains(#[trigger] depths[k].0) || child_of_some(
            processes,
            depths[k].0,
            |q: u32| has_pid(depths, q),
        )
}

/// Growing the keys by a child of a key keeps every key justified.
pub proof fn lemma_justified_grow(
    processes: Seq<ProcessInfo>,
    roots: Seq<u32>,
    before: Seq<(u32, usize)>,
    after: Seq<(u32, usize)>,
    j: int,
)
    requires
        justified(processes, roots, before),
        0 <= j < processes.len(),
        parent_in(processes[j], |q: u32| has_pid(before, q)),
        forall|x: u32| has_pid(before, x) ==> has_pid(after, x),
        forall|x: u32| has_pid(after, x) ==> has_pid(before, x) || x == processes[j].pid,
    ensures
        justified(processes, roots, after),
{
    assert forall|k: int| 0 <= k < after.len() implies roots.contains(#[trigger] after[k].0) || child_of_some(
        processes,
        after[k].0,
        |q: u32| has_pid(after, q),
    ) by {
        let x = after[k].0;
        assert(has_pid(after, x));
        let q = processes[j].parent->0;
        if x == processes[j].pid {
            assert(has_pid(after, q));
            assert(processes[j].pid == x && parent_in(processes[j], |q: u32| has_pid(after, q)));
        } else {
            assert(has_pid(before, x));
            let o = choose|o: int| 0 <= o < before.len() && (#[trigger] before[o]).0 == x;
            if !roots.contains(before[o].0) {
                assert(child_of_some(processes, before[o].0, |q: u32| has_pid(before, q)));
                let w = choose|w: int|
                    0 <= w < processes.len() && (#[trigger] processes[w]).pid == x && parent_in(
                        processes[w],
                        |q: u32| has_pid(before, q),
                    );
                let q2 = processes[w].parent->0;
                assert(has_pid(after, q2));
                assert(processes[w].pid == x && parent_in(processes[w], |q: u32| has_pid(after, q)));
            }
        }
    }
}

fn position(depths: &Vec<(u32, usize)>, pid: u32) -> (r: Option<usize>)
    ensures
        match r {
            Some(i) => i < depths@.len() && depths@[i as int].0 == pid,
            None => !has_pid(depths@, pid),
        },
{
    let mut i: usize = 0;
    while i < depths.len()
        invariant
            i <= depths@.len(),
            forall|j: int| 0 <= j < i ==> (#[trigger] depths@[j]).0 != pid,
        decreases depths@.len() - i,
    {
        if depths[i].0 == pid {
            return Some(i);
        }
        i = i + 1;
    }
    None
}

pub proof fn lemma_push_keys(before: Seq<(u32, usize)>, e: (u32, usize))
    ensures
        forall|x: u32| has_pid(before, x) ==> has_pid(before.push(e), x),
        forall|x: u32| has_pid(before.push(e), x) ==> has_pid(before, x) || x == e.0,
        has_pid(before.push(e), e.0),
{
    let after = before.push(e);
    assert forall|x: u32| has_pid(before, x) implies has_pid(after, x) by {
        let w = choose|w: int| 0 <= w < before.len() && (#[trigger] before[w]).0 == x;
        assert(after[w].0 == x);
    }
    assert forall|x: u32| has_pid(after, x) implies has_pid(before, x) || x == e.0 by {
        let w = choose|w: int| 0 <= w < after.len() && (#[trigger] after[w]).0 == x;
        if w < before.len() {
            assert(before[w].0 == x);
        }
    }
    assert(after[before.len() as int].0 == e.0);
}

pub proof fn lemma_set_keys(before: Seq<(u32, usize)>, i: int, e: (u32, usize))
    requires
        0 <= i < before.len(),
        before[i].0 == e.0,
    ensures
        forall|x: u32| has_pid(before.update(i, e), x) <==> has_pid(before, x),
{
    let after = before.update(i, e);
    assert forall|x: u32| has_pid(after, x) <==> has_pid(before, x) by {
        if has_pid(after, x) {
            let w = choose|w: int| 0 <= w < after.len() && (#[trigger] after[w]).0 == x;
            assert(before[w].0 == x);
        }
        if has_pid(before, x) {
            let w = choose|w: int| 0 <= w < before.len() && (#[trigger] before[w]).0 == x;
            assert(after[w].0 == x);
        }
    }
}

/// The pids of the main processes `roots` and of every process under them, each once,
/// deepest first (by the depth at which each was last found), larger pids first among
/// equals. `processes` are all running processes.
pub fn collect_process_tree_pids(processes: &Vec<ProcessInfo>, roots: &Vec<u32>) -> (r: Vec<u32>)
    ensures
        forall|a: int, b: int| 0 <= a < b < r@.len() ==> r@[a] != r@[b],
        forall|k: int| 0 <= k < roots@.len() ==> r@.contains(#[trigger] roots@[k]),
        forall|k: int|
            0 <= k < processes@.len() && parent_in(#[trigger] processes@[k], |q: u32| r@.contains(q)) ==> r@.contains(processes@[k].pid),
        forall|k: int|
            0 <= k < r@.len() ==> roots@.contains(#[trigger] r@[k]) || child_of_some(
                processes@,
                r@[k],
                |q: u32| r@.contains(q),
            ),
{
    let mut depths: Vec<(u32, usize)> = Vec::new();
    let mut i: usize = 0;
    while i < roots.len()
        invariant
            i <= roots@.len(),
            distinct_pids(depths@),
            forall|k: int| 0 <= k < i ==> has_pid(depths@, #[trigger] roots@[k]),
            forall|k: int| 0 <= k < depths@.len() ==> roots@.contains(#[trigger] depths@[k].0),
        decreases roots@.len() - i,
    {
        let ghost before = depths@;
        match position(&depths, roots[i]) {
            Some(p) => {
                depths.set(p, (roots[i], 0));
                proof {
                    lemma_set_keys(before, p as int, (roots@[i as int], 0));
                    assert forall|k: int| 0 <= k < i + 1 implies has_pid(depths@, #[trigger] roots@[k]) by {
                        if k < i {
                            assert(has_pid(before, roots@[k]));
                        } else {
                            assert(depths@[p as int].0 == roots@[k]);
                        }
                    }
                    assert forall|k: int| 0 <= k < depths@.len() implies roots@.contains(#[trigger] depths@[k].0) by {
                        assert(depths@[k].0 == before[k].0);
                    }
                    assert forall|a: int, b: int| 0 <= a < b < depths@.len() implies (#[trigger] depths@[a]).0
                        != (#[trigger] depths@[b]).0 by {
                        assert(depths@[a].0 == before[a].0 && depths@[b].0 == before[b].0);
                    }
                }
            },
            None => {
                depths.push((roots[i], 0));
                proof {
                    lemma_push_keys(before, (roots@[i as int], 0));
                    assert forall|k: int| 0 <= k < i + 1 implies has_pid(depths@, #[trigger] roots@[k]) by {
                        if k < i {
                            assert(has_pid(before, roots@[k]));
                        }
                    }
                    assert forall|k: int| 0 <= k < depths@.len() implies roots@.contains(#[trigger] depths@[k].0) by {
                        if k < before.len() {
                            assert(depths@[k] == before[k]);
                        } else {
                            assert(roots@[i as int] == depths@[k].0);
                        }
                    }
                    assert forall|a: int, b: int| 0 <= a < b < depths@.len() implies (#[trigger] depths@[a]).0
                        != (#[trigger] depths@[b]).0 by {
                        if b == before.len() {
                            assert(depths@[a] == before[a]);
                        } else {
                            assert(depths@[a] == before[a] && depths@[b] == before[b]);
                        }
                    }
                }
            },
        }
        i = i + 1;
    }
    proof {
        assert forall|k: int| 0 <= k < depths@.len() implies roots@.contains(#[trigger] depths@[k].0) || child_of_some(
            processes@,
            depths@[k].0,
            |q: u32| has_pid(depths@, q),
        ) by {}
    }
    loop
        invariant
            distinct_pids(depths@),
            forall|k: int| 0 <= k < roots@.len() ==> has_pid(depths@, #[trigger] roots@[k]),
            justified(processes@, roots@, depths@),
        ensures
            distinct_pids(depths@),
            forall|k: int| 0 <= k < roots@.len() ==> has_pid(depths@, #[trigger] roots@[k]),
            justified(processes@, roots@, depths@),
            forall|k: int|
                0 <= k < processes@.len() && parent_in(#[trigger] processes@[k], |q: u32| has_pid(depths@, q)) ==> has_pid(depths@, processes@[k].pid),
        decreases unseen(processes@, depths@),
    {
        let ghost start = depths@;
        let mut changed = false;
        let mut j: usize = 0;
        while j < processes.len()
            invariant
                j <= processes@.len(),
                distinct_pids(depths@),
                forall|k: int| 0 <= k < roots@.len() ==> has_pid(depths@, #[trigger] roots@[k]),
                justified(processes@, roots@, depths@),
                forall|x: u32| has_pid(start, x) ==> has_pid(depths@, x),
                !changed ==> forall|x: u32| has_pid(depths@, x) ==> has_pid(start, x),
                changed ==> unseen(processes@, depths@) < unseen(processes@, start),
                unseen(processes@, depths@) <= unseen(processes@, start),
                !changed ==> forall|k: int|
                    0 <= k < j && parent_in(#[trigger] processes@[k], |q: u32| has_pid(depths@, q))
                        ==> has_pid(depths@, processes@[k].pid),
            decreases processes@.len() - j,
        {
            let ghost before = depths@;
            let ghost before_changed = changed;
            let p = &processes[j];
            match p.parent {
                None => {},
                Some(q) => {
                    match position(&depths, q) {
                        None => {},
                        Some(pi) => {
                            let depth = depths[pi].1.saturating_add(1);
                            match position(&depths, p.pid) {
                                Some(e) => {
                                    depths.set(e, (p.pid, depth));
                                    proof {
                                        lemma_set_keys(before, e as int, (p.pid, depth));
                                        assert((|x: ProcessInfo| !has_pid(depths@, x.pid)) =~= (|x: ProcessInfo|
                                            !has_pid(before, x.pid)));
                                        assert forall|a: int, b: int| 0 <= a < b < depths@.len() implies (#[trigger] depths@[a]).0
                                            != (#[trigger] depths@[b]).0 by {
                                            assert(depths@[a].0 == before[a].0 && depths@[b].0 == before[b].0);
                                        }
                                        assert(has_pid(before, p.pid));
                                    }
                                },
                                None => {
                                    depths.push((p.pid, depth));
                                    changed = true;
                                    proof {
                                        lemma_push_keys(before, (p.pid, depth));
                                        let a = |x: ProcessInfo| !has_pid(before, x.pid);
                                        let b = |x: ProcessInfo| !has_pid(depths@, x.pid);
                                        lemma_filter_fewer(processes@, a, b, j as int);
                                        assert forall|a: int, b: int| 0 <= a < b < depths@.len() implies (#[trigger] depths@[a]).0
                                            != (#[trigger] depths@[b]).0 by {
                                            if b == before.len() {
                                                assert(depths@[a] == before[a]);
                                                assert(has_pid(before, before[a].0));
                                            } else {
                                                assert(depths@[a] == before[a] && depths@[b] == before[b]);
                                            }
                                        }
                                    }
                                },
                            }
                            proof {
                                assert(has_pid(before, q));
                                lemma_justified_grow(processes@, roots@, before, depths@, j as int);
                            }
                        },
                    }
                },
            }
            proof {
                if !changed {
                    assert forall|k: int|
                        0 <= k < j + 1 && parent_in(#[trigger] processes@[k], |q: u32| has_pid(depths@, q))
                            implies has_pid(depths@, processes@[k].pid) by {
                        if k == j {
                            if let Some(q) = processes@[k].parent {
                                assert(has_pid(before, q));
                            }
                        }
                    }
                }
            }
            j = j + 1;
        }
        if !changed {
            break;
        }
    }
    // Deepest first, then larger pids first.
    let mut order: Vec<(u32, usize)> = Vec::new();
    let mut k: usize = 0;
    while k < depths.len()
        invariant
            k <= depths@.len(),
            distinct_pids(depths@),
            distinct_pids(order@),
            forall|t: int| 0 <= t < order@.len() ==> exists|u: int| 0 <= u < k && #[trigger] depths@[u].0 == (#[trigger] order@[t]).0,
            forall|u: int| 0 <= u < k ==> has_pid(order@, #[trigger] depths@[u].0),
        decreases depths@.len() - k,
    {
        let x = depths[k];
        let mut at: usize = 0;
        while at < order.len() && (order[at].1 > x.1 || (order[at].1 == x.1 && order[at].0 > x.0))
            invariant
                at <= order@.len(),
            decreases order@.len() - at,
        {
            at = at + 1;
        }
        let ghost before = order@;
        order.insert(at, x);
        proof {
            assert(order@ == before.insert(at as int, x));
            assert forall|t: int| 0 <= t < order@.len() implies exists|u: int| 0 <= u < k + 1 && #[trigger] depths@[u].0
                == (#[trigger] order@[t]).0 by {
                if t < at {
                    assert(order@[t] == before[t]);
                } else if t == at {
                    assert(depths@[k as int].0 == order@[t].0);
                } else {
                    assert(order@[t] == before[t - 1]);
                }
            }
            assert forall|u: int| 0 <= u < k + 1 implies has_pid(order@, #[trigger] depths@[u].0) by {
                if u == k {
                    assert(order@[at as int] == x);
                } else {
                    let w = choose|w: int| 0 <= w < before.len() && (#[trigger] before[w]).0 == depths@[u].0;
                    if w < at {
                        assert(order@[w] == before[w]);
                    } else {
                        assert(order@[w + 1] == before[w]);
                    }
                }
            }
            assert forall|a: int, b: int| 0 <= a < b < order@.len() implies (#[trigger] order@[a]).0 != (#[trigger] order@[b]).0 by {
                let ia = if a < at { a } else if a == at { -1 } else { a - 1 };
                let ib = if b < at { b } else if b == at { -1 } else { b - 1 };
                if a == at || b == at {
                    let other = if a == at { ib } else { ia };
                    assert(order@[at as int] == x);
                    let u = choose|u: int| 0 <= u < k && #[trigger] depths@[u].0 == before[other].0;
                    assert(depths@[u].0 != depths@[k as int].0);
                } else {
                    assert(order@[a] == before[ia] && order@[b] == before[ib]);
                }
            }
        }
        k = k + 1;
    }
    let mut r: Vec<u32> = Vec::new();
    let mut m: usize = 0;
    while m < order.len()
        invariant
            m <= order@.len(),
            r@.len() == m,
            forall|t: int| 0 <= t < m ==> #[trigger] r@[t] == order@[t].0,
        decreases order@.len() - m,
    {
        r.push(order[m].0);
        m = m + 1;
    }
    proof {
        assert forall|q: u32| has_pid(depths@, q) <==> r@.contains(q) by {
            if has_pid(depths@, q) {
                let u = choose|u: int| 0 <= u < depths@.len() && (#[trigger] depths@[u]).0 == q;
                assert(has_pid(order@, depths@[u].0));
                let t = choose|t: int| 0 <= t < order@.len() && (#[trigger] order@[t]).0 == q;
                assert(r@[t] == q);
            }
            if r@.contains(q) {
                let t = choose|t: int| 0 <= t < r@.len() && r@[t] == q;
                assert(r@[t] == order@[t].0);
                let u = choose|u: int| 0 <= u < depths@.len() && #[trigger] depths@[u].0 == (#[trigger] order@[t]).0;
                assert(depths@[u].0 == q);
            }
        }
        assert forall|k: int| 0 <= k < r@.len() implies roots@.contains(#[trigger] r@[k]) || child_of_some(
            processes@,
            r@[k],
            |q: u32| r@.contains(q),
        ) by {
            let x = r@[k];
            assert(r@.contains(x));
            assert(has_pid(depths@, x));
            let u = choose|u: int| 0 <= u < depths@.len() && (#[trigger] depths@[u]).0 == x;
            if !roots@.contains(x) {
                assert(child_of_some(processes@, depths@[u].0, |q: u32| has_pid(depths@, q)));
                let w = choose|w: int|
                    0 <= w < processes@.len() && (#[trigger] processes@[w]).pid == x && parent_in(
                        processes@[w],
                        |q: u32| has_pid(depths@, q),
                    );
                let q2 = processes@[w].parent->0;
                assert(r@.contains(q2));
                assert(processes@[w].pid == x && parent_in(processes@[w], |q: u32| r@.contains(q)));
            }
        }
        assert forall|a: int, b: int| 0 <= a < b < r@.len() implies r@[a] != r@[b] by {
            assert(r@[a] == order@[a].0 && r@[b] == order@[b].0);
        }
        assert forall|k: int| 0 <= k < roots@.len() implies r@.contains(#[trigger] roots@[k]) by {
            assert(has_pid(depths@, roots@[k]));
        }
        assert forall|k: int|
            0 <= k < processes@.len() && parent_in(#[trigger] processes@[k], |q: u32| r@.contains(q))
                implies r@.contains(processes@[k].pid) by {
            if let Some(q) = processes@[k].parent {
                assert(has_pid(depths@, q));
                assert(has_pid(depths@, processes@[k].pid));
            }
        }
    }
    r
}

} // verus!
