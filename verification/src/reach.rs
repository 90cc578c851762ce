//! Reachability of declared states from a table's initial state, and a
//! verified worklist search that computes the reachable set exactly.

use vstd::prelude::*;

use crate::table::Table;
use crate::table::declares;
use crate::table::edge;

verus! {

broadcast use vstd::seq_lib::group_seq_properties;

/// `s` can be reached from the initial state of `t` in at most `k` steps.
pub open spec fn reach_within(t: Table, s: u64, k: nat) -> bool
    decreases k,
{
    if s == t.args.initial {
        true
    } else if k == 0 {
        false
    } else {
        exists|mid: u64| reach_within(t, mid, (k - 1) as nat) && edge(t, mid, s)
    }
}

/// `s` can be reached from the initial state of `t` along declared edges.
pub open spec fn reachable(t: Table, s: u64) -> bool {
    exists|k: nat| reach_within(t, s, k)
}

/// Every declared state of `t` is reachable from its initial state.
pub open spec fn all_reachable(t: Table) -> bool {
    forall|s: u64| declares(t, s) ==> reachable(t, s)
}

/// The initial state reaches itself.
pub proof fn lemma_initial_reachable(t: Table)
    ensures
        reachable(t, t.args.initial),
{
    assert(reach_within(t, t.args.initial, 0));
}

/// Reachability extends along an edge.
pub proof fn lemma_step_reachable(t: Table, a: u64, b: u64)
    requires
        reachable(t, a),
        edge(t, a, b),
    ensures
        reachable(t, b),
{
    let k = choose|k: nat| reach_within(t, a, k);
    assert(reach_within(t, a, ((k + 1) - 1) as nat) && edge(t, a, b));
    assert(reach_within(t, b, (k + 1) as nat));
}

/// A set of states that contains the initial state and is closed under the
/// table's edges contains every reachable state.
proof fn lemma_closed_contains_reach_within(t: Table, visited: Seq<u64>, s: u64, k: nat)
    requires
        visited.contains(t.args.initial),
        forall|a: u64, b: u64|
            visited.contains(a) && #[trigger] edge(t, a, b) ==> visited.contains(b),
        reach_within(t, s, k),
    ensures
        visited.contains(s),
    decreases k,
{
    if s != t.args.initial {
        let mid = choose|mid: u64| reach_within(t, mid, (k - 1) as nat) && edge(t, mid, s);
        lemma_closed_contains_reach_within(t, visited, mid, (k - 1) as nat);
    }
}

/// A duplicate-free sequence is no longer than a duplicate-free sequence
/// containing all its elements.
proof fn lemma_unique_subset_len(a: Seq<u64>, b: Seq<u64>)
    requires
        a.no_duplicates(),
        b.no_duplicates(),
        forall|x: u64| a.contains(x) ==> b.contains(x),
    ensures
        a.len() <= b.len(),
{
    broadcast use vstd::seq_lib::seq_to_set_is_finite;

    a.unique_seq_to_set();
    b.unique_seq_to_set();
    assert(a.to_set().subset_of(b.to_set()));
    vstd::set_lib::lemma_len_subset(a.to_set(), b.to_set());
}

/// Whether `v` holds the tag `x`.
pub(crate) fn contains_id(v: &Vec<u64>, x: u64) -> (b: bool)
    ensures
        b == v@.contains(x),
{
    let mut k: usize = 0;
    while k < v.len()
        invariant
            0 <= k <= v@.len(),
            forall|j: int| 0 <= j < k ==> v@[j] != x,
        decreases v@.len() - k,
    {
        if v[k] == x {
            return true;
        }
        k = k + 1;
    }
    false
}

/// Computes the set of states reachable from the initial state of `t`,
/// as a duplicate-free list: a state is in the result exactly when it is
/// reachable.
///
/// `states` must list the declared states of `t` without duplicates; it only
/// bounds the search.
pub(crate) fn reachable_states(t: &Table, states: &Vec<u64>) -> (visited: Vec<u64>)
    requires
        states@.no_duplicates(),
        forall|s: u64| states@.contains(s) <==> declares(*t, s),
    ensures
        forall|s: u64| visited@.contains(s) <==> reachable(*t, s),
{
    let mut visited: Vec<u64> = Vec::new();
    let mut work: Vec<u64> = Vec::new();
    visited.push(t.args.initial);
    work.push(t.args.initial);
    proof {
        lemma_initial_reachable(*t);
        assert forall|x: u64| visited@.contains(x) implies states@.contains(x) by {
            assert(x == t.args.initial);
            assert(declares(*t, x));
        }
        lemma_unique_subset_len(visited@, states@);
    }
    while work.len() > 0
        invariant
            states@.no_duplicates(),
            forall|s: u64| states@.contains(s) <==> declares(*t, s),
            visited@.no_duplicates(),
            visited@.len() <= states@.len(),
            visited@.contains(t.args.initial),
            forall|s: u64| work@.contains(s) ==> visited@.contains(s),
            forall|s: u64| #[trigger] visited@.contains(s) ==> declares(*t, s) && reachable(*t, s),
            forall|a: u64, b: u64|
                visited@.contains(a) && !work@.contains(a) && #[trigger] edge(*t, a, b)
                    ==> visited@.contains(b),
        decreases states@.len() - visited@.len(), work@.len(),
    {
        let ghost work_pre = work@;
        let ghost visited_pre = visited@;
        let u = match work.pop() {
            Some(x) => x,
            None => {
                proof {
                    assert(false);
                }
                0
            },
        };
        proof {
            assert(work_pre.contains(u)) by {
                assert(work_pre[work_pre.len() - 1] == u);
            }
            assert(visited@.contains(u));
            assert(declares(*t, u));
        }
        // The wildcard timeout edge runs from every state, in particular `u`.
        match t.timeout_target {
            Some(b) => {
                if !contains_id(&visited, b) {
                    let ghost visited_wild = visited@;
                    proof {
                        assert(edge(*t, u, b));
                        lemma_step_reachable(*t, u, b);
                        assert(visited@.push(b).no_duplicates());
                    }
                    visited.push(b);
                    work.push(b);
                    proof {
                        assert forall|x: u64| visited@.contains(x) implies states@.contains(x) by {
                            if x == b {
                                assert(declares(*t, b));
                            } else {
                                assert(visited_wild.contains(x));
                                assert(declares(*t, x));
                            }
                        }
                        lemma_unique_subset_len(visited@, states@);
                    }
                }
            },
            None => {},
        }
        // Edges declared by rules whose source is `u`.
        let mut ri: usize = 0;
        while ri < t.rules.len()
            invariant
                states@.no_duplicates(),
                forall|s: u64| states@.contains(s) <==> declares(*t, s),
                visited@.no_duplicates(),
                visited@.len() <= states@.len(),
                visited@.contains(t.args.initial),
                visited@.contains(u),
                0 <= ri <= t.rules@.len(),
                forall|s: u64| work@.contains(s) ==> visited@.contains(s),
                forall|s: u64| #[trigger] visited@.contains(s)
                    ==> declares(*t, s) && reachable(*t, s),
                forall|a: u64, b: u64|
                    visited@.contains(a) && !work@.contains(a) && a != u
                        && #[trigger] edge(*t, a, b) ==> visited@.contains(b),
                t.timeout_target matches Some(b) ==> visited@.contains(b),
                forall|i: int|
                    0 <= i < ri && (#[trigger] t.rules@[i]).source == u
                        ==> visited@.contains(t.rules@[i].target),
                forall|s: u64| visited_pre.contains(s) ==> visited@.contains(s),
                forall|s: u64|
                    #[trigger] visited@.contains(s) && !visited_pre.contains(s)
                        ==> work@.contains(s),
                work_pre.len() >= 1,
                forall|s: u64| work_pre.subrange(0, work_pre.len() - 1).contains(s)
                    ==> work@.contains(s),
                visited_pre.len() <= visited@.len(),
                work@.len() - (work_pre.len() - 1) <= visited@.len() - visited_pre.len(),
            decreases t.rules@.len() - ri,
        {
            let r = t.rules[ri];
            if r.source == u {
                if !contains_id(&visited, r.target) {
                    let ghost visited_rule = visited@;
                    proof {
                        assert((#[trigger] t.rules@[ri as int]).source == u
                            && t.rules@[ri as int].target == r.target);
                        assert(edge(*t, u, r.target));
                        lemma_step_reachable(*t, u, r.target);
                        assert(visited@.push(r.target).no_duplicates());
                    }
                    visited.push(r.target);
                    work.push(r.target);
                    proof {
                        assert forall|x: u64| visited@.contains(x) implies states@.contains(x) by {
                            if x == r.target {
                                assert(declares(*t, x));
                            } else {
                                assert(visited_rule.contains(x));
                                assert(declares(*t, x));
                            }
                        }
                        lemma_unique_subset_len(visited@, states@);
                    }
                }
            }
            ri = ri + 1;
        }
        proof {
            // `u` is now fully expanded: every edge out of it leads into
            // `visited`, and every state expanded before stays expanded.
            assert forall|a: u64, b: u64|
                visited@.contains(a) && !work@.contains(a) && #[trigger] edge(*t, a, b)
                implies visited@.contains(b) by {
                if a == u {
                    if t.timeout_target == Some(b) {
                        assert(visited@.contains(b));
                    } else {
                        let i = choose|i: int|
                            0 <= i < t.rules@.len() && (#[trigger] t.rules@[i]).source == a
                                && t.rules@[i].target == b;
                        assert(visited@.contains(t.rules@[i].target));
                    }
                } else {
                    if visited_pre.contains(a) {
                        if work_pre.contains(a) {
                            let j = choose|j: int| 0 <= j < work_pre.len() && work_pre[j] == a;
                            if j < work_pre.len() - 1 {
                                assert(work_pre.subrange(0, work_pre.len() - 1)[j] == a);
                                assert(work_pre.subrange(0, work_pre.len() - 1).contains(a));
                                assert(work@.contains(a));
                                assert(false);
                            } else {
                                assert(a == u);
                                assert(false);
                            }
                        }
                        // Closed before this iteration, and `visited` only grows.
                        assert(visited_pre.contains(b));
                    } else {
                        // Newly discovered this iteration, hence still on the worklist.
                        assert(work@.contains(a));
                        assert(false);
                    }
                }
            }
        }
    }
    proof {
        assert forall|s: u64| visited@.contains(s) <==> reachable(*t, s) by {
            if reachable(*t, s) {
                let k = choose|k: nat| reach_within(*t, s, k);
                lemma_closed_contains_reach_within(*t, visited@, s, k);
            }
        }
    }
    visited
}

} // verus!
