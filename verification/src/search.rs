//! Breadth-first search over the board graph, shared by the rule engine and the
//! greedy strategy.
use vstd::prelude::*;

use crate::board::{
    build_adjacency, edges_at, incident, lemma_edge_ends, lemma_incident_upto, spec_other_end, NodeId,
    EDGE_COUNT, NODE_COUNT,
};

verus! {

/// Edge `e` is open and leads from node `v` to a node that may be left and is
/// reached within `k` steps.
pub open spec fn pulled_by(
    expand: Seq<bool>,
    enter: Seq<bool>,
    open: Seq<bool>,
    start: int,
    k: nat,
    v: int,
    e: u8,
) -> bool {
    open[e as int] && expand[spec_other_end(e, v)] && in_reach(expand, enter, open, start, k, spec_other_end(e, v))
}

/// Node `v` is reached within `k` steps from `start`: either it already was
/// within `k - 1` steps, or it may be entered and an open edge joins it to a node
/// reached within `k - 1` steps that may be left.
pub open spec fn in_reach(
    expand: Seq<bool>,
    enter: Seq<bool>,
    open: Seq<bool>,
    start: int,
    k: nat,
    v: int,
) -> bool
    decreases k,
{
    if k == 0 {
        v == start
    } else {
        in_reach(expand, enter, open, start, (k - 1) as nat, v) || (enter[v] && exists|e: u8|
            #![trigger edges_at(v).contains(e)]
            edges_at(v).contains(e) && open[e as int] && expand[spec_other_end(e, v)] && in_reach(
                expand,
                enter,
                open,
                start,
                (k - 1) as nat,
                spec_other_end(e, v),
            ))
    }
}

/// Some goal node is reached within `k` steps.
pub open spec fn goal_within(
    expand: Seq<bool>,
    enter: Seq<bool>,
    open: Seq<bool>,
    goal: Seq<bool>,
    start: int,
    k: nat,
) -> bool {
    exists|v: int| 0 <= v < NODE_COUNT && #[trigger] in_reach(expand, enter, open, start, k, v) && goal[v]
}

/// Reached nodes stay reached, and only board nodes are reached.
pub proof fn lemma_reach_monotone(
    expand: Seq<bool>,
    enter: Seq<bool>,
    open: Seq<bool>,
    start: int,
    j: nat,
    k: nat,
    v: int,
)
    requires
        j <= k,
        in_reach(expand, enter, open, start, j, v),
    ensures
        in_reach(expand, enter, open, start, k, v),
    decreases k - j,
{
    if j < k {
        lemma_reach_monotone(expand, enter, open, start, j, (k - 1) as nat, v);
    }
}

/// Once a step reaches nothing new, nothing new is ever reached.
pub proof fn lemma_reach_stable(
    expand: Seq<bool>,
    enter: Seq<bool>,
    open: Seq<bool>,
    start: int,
    k: nat,
    m: nat,
)
    requires
        k <= m,
        forall|v: int| #[trigger] in_reach(expand, enter, open, start, k + 1, v) ==> in_reach(expand, enter, open, start, k, v),
    ensures
        forall|v: int| #[trigger] in_reach(expand, enter, open, start, m, v) ==> in_reach(expand, enter, open, start, k, v),
    decreases m - k,
{
    if k < m {
        lemma_reach_stable(expand, enter, open, start, k, (m - 1) as nat);
        assert forall|v: int| #[trigger] in_reach(expand, enter, open, start, m, v) implies in_reach(
            expand,
            enter,
            open,
            start,
            k,
            v,
        ) by {
            if !in_reach(expand, enter, open, start, (m - 1) as nat, v) {
                let e = choose|e: u8|
                    #![trigger edges_at(v).contains(e)]
                    edges_at(v).contains(e) && pulled_by(expand, enter, open, start, (m - 1) as nat, v, e);
                let u = spec_other_end(e, v);
                assert(in_reach(expand, enter, open, start, k, u));
                assert(in_reach(expand, enter, open, start, k + 1, v));
            }
        }
    }
}

/// The fewest steps from `start` to a goal node, layer by layer; `None` when no
/// goal node can be reached.
#[verifier::rlimit(40)]
pub fn layered_search(
    start: NodeId,
    expand: &[bool; NODE_COUNT],
    enter: &[bool; NODE_COUNT],
    open: &[bool; EDGE_COUNT],
    goal: &[bool; NODE_COUNT],
) -> (r: Option<u32>)
    requires
        start < NODE_COUNT,
        !goal@[start as int],
    ensures
        r matches Some(d) ==> 1 <= d && goal_within(expand@, enter@, open@, goal@, start as int, d as nat)
            && forall|j: nat| j < d ==> !#[trigger] goal_within(expand@, enter@, open@, goal@, start as int, j),
        r is None ==> forall|k: nat| !#[trigger] goal_within(expand@, enter@, open@, goal@, start as int, k),
{
    let adj = build_adjacency();
    let mut visited = [false; NODE_COUNT];
    visited[start as usize] = true;
    let mut level: u32 = 0;
    let ghost ex = expand@;
    let ghost en = enter@;
    let ghost op = open@;
    let ghost st = start as int;
    proof {
        assert forall|v: int| 0 <= v < NODE_COUNT implies visited@[v] == in_reach(ex, en, op, st, 0, v) by {}
        assert forall|j: nat| j <= 0 implies !#[trigger] goal_within(ex, en, op, goal@, st, j) by {
            if goal_within(ex, en, op, goal@, st, j) {
                let v = choose|v: int| 0 <= v < NODE_COUNT && #[trigger] in_reach(ex, en, op, st, j, v) && goal@[v];
                assert(v == st);
            }
        }
        lemma_count_true_pos(visited@, start as int, NODE_COUNT as nat);
    }
    while level < NODE_COUNT as u32
        invariant
            adj.wf(),
            ex == expand@,
            en == enter@,
            op == open@,
            st == start as int,
            level <= NODE_COUNT,
            start < NODE_COUNT,
            forall|v: int| 0 <= v < NODE_COUNT ==> #[trigger] visited@[v] == in_reach(ex, en, op, st, level as nat, v),
            forall|j: nat| j <= level ==> !#[trigger] goal_within(ex, en, op, goal@, st, j),
            count_true(visited@, NODE_COUNT as nat) >= level + 1,
        decreases NODE_COUNT - level,
    {
        // Mark every node first reached at the next level.
        let mut next = [false; NODE_COUNT];
        let mut found = false;
        let mut grew = false;
        let mut v: usize = 0;
        while v < NODE_COUNT
            invariant
                adj.wf(),
                ex == expand@,
                en == enter@,
                op == open@,
                st == start as int,
                v <= NODE_COUNT,
                forall|w: int| 0 <= w < NODE_COUNT ==> #[trigger] visited@[w] == in_reach(ex, en, op, st, level as nat, w),
                forall|w: int| 0 <= w < v ==> #[trigger] next@[w] == (!visited@[w] && in_reach(ex, en, op, st, (level + 1) as nat, w)),
                forall|w: int| v <= w < NODE_COUNT ==> !#[trigger] next@[w],
                found == exists|w: int| 0 <= w < v && #[trigger] next@[w] && goal@[w],
                grew == exists|w: int| 0 <= w < v && #[trigger] next@[w],
            decreases NODE_COUNT - v,
        {
            let ghost found_before = found;
            let ghost grew_before = grew;
            let ghost next_before = next@;
            if !visited[v] && enter[v] {
                let es = adj.edges_of(v as u8);
                let mut reached = false;
                let mut i: usize = 0;
                while i < es.len()
                    invariant
                        ex == expand@,
                        en == enter@,
                        op == open@,
                        es@ == edges_at(v as int),
                        i <= es.len(),
                        v < NODE_COUNT,
                        forall|w: int| 0 <= w < NODE_COUNT ==> #[trigger] visited@[w] == in_reach(ex, en, op, st, level as nat, w),
                        reached == exists|j: int| 0 <= j < i && #[trigger] pulled_by(ex, en, op, st, level as nat, v as int, es@[j]),
                    decreases es.len() - i,
                {
                    let e = es[i];
                    proof {
                        lemma_incident_upto(v as int, EDGE_COUNT as nat);
                        assert(edges_at(v as int).contains(e));
                        lemma_edge_ends(e);
                    }
                    let u = adj.other_end(e, v as u8);
                    let ghost was = reached;
                    proof {
                        assert(u < NODE_COUNT);
                        assert(visited@[u as int] == in_reach(ex, en, op, st, level as nat, u as int));
                        assert(pulled_by(ex, en, op, st, level as nat, v as int, es@[i as int]) == (open@[e as int]
                            && expand@[u as int] && visited@[u as int]));
                    }
                    if open[e as usize] && expand[u as usize] && visited[u as usize] {
                        reached = true;
                    }
                    proof {
                        if reached {
                            if was {
                                let j = choose|j: int| 0 <= j < i && #[trigger] pulled_by(ex, en, op, st, level as nat, v as int, es@[j]);
                                assert(0 <= j < i + 1 && pulled_by(ex, en, op, st, level as nat, v as int, es@[j]));
                            } else {
                                assert(pulled_by(ex, en, op, st, level as nat, v as int, es@[i as int]));
                            }
                        } else {
                            assert forall|j: int| 0 <= j < i + 1 implies !#[trigger] pulled_by(ex, en, op, st, level as nat, v as int, es@[j]) by {
                                if j < i {
                                }
                            }
                        }
                    }
                    i = i + 1;
                }
                proof {
                    lemma_incident_upto(v as int, EDGE_COUNT as nat);
                    if reached {
                        let j = choose|j: int| 0 <= j < es.len() && #[trigger] pulled_by(ex, en, op, st, level as nat, v as int, es@[j]);
                        assert(edges_at(v as int).contains(es@[j]));
                    } else {
                        assert forall|e: u8| #[trigger] edges_at(v as int).contains(e) implies !pulled_by(ex, en, op, st, level as nat, v as int, e) by {
                            let j = choose|j: int| 0 <= j < es.len() && es@[j] == e;
                            assert(!pulled_by(ex, en, op, st, level as nat, v as int, es@[j]));
                        }
                    }
                }
                if reached {
                    next[v] = true;
                    grew = true;
                    if goal[v] {
                        found = true;
                    }
                }
            }
            proof {
                assert(next@[v as int] == (!visited@[v as int] && in_reach(ex, en, op, st, (level + 1) as nat, v as int)));
                if found {
                    if found_before {
                        let w = choose|w: int| 0 <= w < v && #[trigger] next_before[w] && goal@[w];
                        assert(next@[w]);
                    } else {
                        assert(next@[v as int] && goal@[v as int]);
                    }
                } else {
                    assert forall|w: int| 0 <= w < v + 1 && #[trigger] next@[w] implies !goal@[w] by {
                        if w < v {
                            assert(next_before[w]);
                        }
                    }
                }
                if grew {
                    if grew_before {
                        let w = choose|w: int| 0 <= w < v && #[trigger] next_before[w];
                        assert(next@[w]);
                    } else {
                        assert(next@[v as int]);
                    }
                } else {
                    assert forall|w: int| 0 <= w < v + 1 implies !#[trigger] next@[w] by {
                        if w < v {
                            assert(!next_before[w]);
                        }
                    }
                }
            }
            v = v + 1;
        }
        if found {
            proof {
                let w = choose|w: int| 0 <= w < NODE_COUNT && #[trigger] next@[w] && goal@[w];
                assert(in_reach(ex, en, op, st, (level + 1) as nat, w));
                assert forall|j: nat| j < level + 1 implies !#[trigger] goal_within(ex, en, op, goal@, st, j) by {}
            }
            return Some(level + 1);
        }
        if !grew {
            proof {
                assert forall|w: int| #[trigger] in_reach(ex, en, op, st, (level + 1) as nat, w) implies in_reach(
                    ex,
                    en,
                    op,
                    st,
                    level as nat,
                    w,
                ) by {
                    if !in_reach(ex, en, op, st, level as nat, w) {
                        lemma_reached_is_node(ex, en, op, st, (level + 1) as nat, w);
                        assert(next@[w]);
                    }
                }
                assert forall|k: nat| !#[trigger] goal_within(ex, en, op, goal@, st, k) by {
                    if goal_within(ex, en, op, goal@, st, k) {
                        let w = choose|w: int| 0 <= w < NODE_COUNT && #[trigger] in_reach(ex, en, op, st, k, w) && goal@[w];
                        if k <= level {
                        } else {
                            lemma_reach_stable(ex, en, op, st, level as nat, k);
                            assert(goal_within(ex, en, op, goal@, st, level as nat));
                        }
                    }
                }
            }
            return None;
        }
        // Merge the new level into the visited set.
        let ghost before = visited@;
        let mut m: usize = 0;
        while m < NODE_COUNT
            invariant
                m <= NODE_COUNT,
                forall|w: int| 0 <= w < m ==> #[trigger] visited@[w] == (before[w] || next@[w]),
                forall|w: int| m <= w < NODE_COUNT ==> #[trigger] visited@[w] == before[w],
            decreases NODE_COUNT - m,
        {
            if next[m] {
                visited[m] = true;
            }
            m = m + 1;
        }
        proof {
            assert forall|w: int| 0 <= w < NODE_COUNT implies #[trigger] visited@[w] == in_reach(ex, en, op, st, (level + 1) as nat, w) by {}
            let w0 = choose|w: int| 0 <= w < NODE_COUNT && #[trigger] next@[w];
            lemma_count_true_grows(before, visited@, w0, NODE_COUNT as nat);
            assert forall|j: nat| j <= level + 1 implies !#[trigger] goal_within(ex, en, op, goal@, st, j) by {
                if j == level + 1 && goal_within(ex, en, op, goal@, st, j) {
                    let w = choose|w: int| 0 <= w < NODE_COUNT && #[trigger] in_reach(ex, en, op, st, j, w) && goal@[w];
                    if !in_reach(ex, en, op, st, level as nat, w) {
                        assert(next@[w]);
                    } else {
                        assert(goal_within(ex, en, op, goal@, st, level as nat));
                    }
                }
            }
        }
        level = level + 1;
    }
    proof {
        lemma_count_true_bound(visited@, NODE_COUNT as nat);
    }
    None
}

/// Only board nodes are ever reached.
proof fn lemma_reached_is_node(expand: Seq<bool>, enter: Seq<bool>, open: Seq<bool>, start: int, k: nat, v: int)
    requires
        0 <= start < NODE_COUNT,
        in_reach(expand, enter, open, start, k, v),
    ensures
        0 <= v < NODE_COUNT,
    decreases k,
{
    if k > 0 {
        if !in_reach(expand, enter, open, start, (k - 1) as nat, v) {
            let e = choose|e: u8|
                #![trigger edges_at(v).contains(e)]
                edges_at(v).contains(e) && pulled_by(expand, enter, open, start, (k - 1) as nat, v, e);
            lemma_incident_upto(v, EDGE_COUNT as nat);
            let i = choose|i: int| 0 <= i < edges_at(v).len() && edges_at(v)[i] == e;
            assert(incident(v, e));
            lemma_edge_ends(e);
        } else {
            lemma_reached_is_node(expand, enter, open, start, (k - 1) as nat, v);
        }
    }
}

/// The number of `true` entries among the first `k`.
pub open spec fn count_true(s: Seq<bool>, k: nat) -> nat
    decreases k,
{
    if k == 0 {
        0
    } else {
        count_true(s, (k - 1) as nat) + if s[k - 1] {
            1nat
        } else {
            0nat
        }
    }
}

proof fn lemma_count_true_pos(s: Seq<bool>, w: int, k: nat)
    requires
        0 <= w < k,
        s[w],
    ensures
        count_true(s, k) >= 1,
    decreases k,
{
    if w < k - 1 {
        lemma_count_true_pos(s, w, (k - 1) as nat);
    }
}

proof fn lemma_count_true_bound(s: Seq<bool>, k: nat)
    ensures
        count_true(s, k) <= k,
    decreases k,
{
    if k > 0 {
        lemma_count_true_bound(s, (k - 1) as nat);
    }
}

/// Turning entries on, at least one of them, raises the count.
proof fn lemma_count_true_grows(a: Seq<bool>, b: Seq<bool>, w: int, k: nat)
    requires
        forall|i: int| 0 <= i < k ==> a[i] ==> b[i],
        0 <= w < k,
        !a[w],
        b[w],
    ensures
        count_true(b, k) >= count_true(a, k) + 1,
    decreases k,
{
    lemma_count_monotone(a, b, (k - 1) as nat);
    if w < k - 1 {
        lemma_count_true_grows(a, b, w, (k - 1) as nat);
    }
}

proof fn lemma_count_monotone(a: Seq<bool>, b: Seq<bool>, k: nat)
    requires
        forall|i: int| 0 <= i < k ==> a[i] ==> b[i],
    ensures
        count_true(b, k) >= count_true(a, k),
    decreases k,
{
    if k > 0 {
        lemma_count_monotone(a, b, (k - 1) as nat);
    }
}

} // verus!
