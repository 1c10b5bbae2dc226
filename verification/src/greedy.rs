//! A heuristic strategy: deposit, pick up, fight, and otherwise walk towards
//! the nearest jewel (or the entrance with a jewel in hand).
use vstd::prelude::*;

use crate::action::Action;
use crate::board::{is_hallway_node, node_kind, room_node, spec_other_end, NodeId, NodeKind, RoomLabel, EDGE_COUNT, ENTRANCE, NODE_COUNT};
use crate::game::jewel_home;
use crate::observation::PlayerView;
use crate::state::{popcount, MAX_FIGURES};
use crate::strategy::Strategy;
use crate::rules::{every_node, goal_holds};
use crate::search::{goal_within, layered_search};

verus! {

/// The nodes the greedy search may enter: all but hallway cells where another
/// figure stands.
pub open spec fn view_enter(view: PlayerView) -> Seq<bool> {
    Seq::new(
        NODE_COUNT as nat,
        |n: int| !(is_hallway_node(n) && view.node_states@[n].figures & !(1u8 << view.figure_id) != 0),
    )
}

/// The edges that are open in the view.
pub open spec fn view_open(view: PlayerView) -> Seq<bool> {
    Seq::new(EDGE_COUNT as nat, |e: int| !view.edge_closed@[e])
}

/// The nodes where the greedy search stops: goal nodes other than the start that it may enter.
pub open spec fn view_goals<F: Fn(NodeId) -> bool>(view: PlayerView, goal: F, start: int) -> Seq<bool> {
    Seq::new(NODE_COUNT as nat, |n: int| n != start && view_enter(view)[n] && goal_holds(goal, n))
}

/// The stopping nodes of a search for `target`: the target, unless it is the
/// start or may not be entered.
pub open spec fn target_goals(view: PlayerView, start: int, target: int) -> Seq<bool> {
    Seq::new(NODE_COUNT as nat, |n: int| n != start && view_enter(view)[n] && n == target)
}

/// Node `target` is reached from `start` within `k` steps of the greedy search.
pub open spec fn reaches_in(view: PlayerView, start: int, target: int, k: nat) -> bool {
    goal_within(every_node(), view_enter(view), view_open(view), target_goals(view, start, target), start, k)
}

/// The number of steps of the shortest way of the greedy search from `start` to
/// `target`, if there is one.
#[verifier::opaque]
pub open spec fn view_distance(view: PlayerView, start: int, target: int) -> Option<nat> {
    if start == target {
        Some(0)
    } else if exists|k: nat| #[trigger] reaches_in(view, start, target, k) {
        Some(choose|k: nat| #[trigger] reaches_in(view, start, target, k) && forall|j: nat| j < k ==> !reaches_in(view, start, target, j))
    } else {
        None
    }
}

#[derive(Debug, Clone, Copy)]
pub struct GreedyStrategy;

impl GreedyStrategy {
    pub fn new() -> (g: Self) {
        GreedyStrategy
    }

    /// The fewest steps from `start` to a node satisfying `goal`, along the open
    /// edges of the view and never entering a hallway cell where another figure
    /// stands; `Some(0)` when `start` itself satisfies `goal`; `None` when no
    /// such node can be reached.
    pub fn bfs_to_goal<F>(view: &PlayerView, start: NodeId, goal: F) -> (r: Option<u32>) where
        F: Fn(NodeId) -> bool,

        requires
            start < NODE_COUNT,
            view.figure_id < 8,
            forall|n: u8| call_requires(goal, (n,)),
            forall|n: u8, a: bool, b: bool| call_ensures(goal, (n,), a) && call_ensures(goal, (n,), b) ==> a == b,
        ensures
            r == Some(0u32) <==> goal_holds(goal, start as int),
            r matches Some(d) ==> (d > 0 ==> goal_within(
                every_node(),
                view_enter(*view),
                view_open(*view),
                view_goals(*view, goal, start as int),
                start as int,
                d as nat,
            ) && forall|j: nat|
                j < d ==> !#[trigger] goal_within(
                    every_node(),
                    view_enter(*view),
                    view_open(*view),
                    view_goals(*view, goal, start as int),
                    start as int,
                    j,
                )),
            r is None ==> forall|k: nat|
                !#[trigger] goal_within(
                    every_node(),
                    view_enter(*view),
                    view_open(*view),
                    view_goals(*view, goal, start as int),
                    start as int,
                    k,
                ),
    {
        if goal(start) {
            return Some(0);
        }
        let mut goals = [false; NODE_COUNT];
        let mut n: usize = 0;
        while n < NODE_COUNT
            invariant
                n <= NODE_COUNT,
                start < NODE_COUNT,
                view.figure_id < 8,
                !goal_holds(goal, start as int),
                forall|k: u8| call_requires(goal, (k,)),
                forall|k: u8, a: bool, b: bool| call_ensures(goal, (k,), a) && call_ensures(goal, (k,), b) ==> a == b,
                forall|k: int| 0 <= k < n ==> #[trigger] goals@[k] == view_goals(*view, goal, start as int)[k],
            decreases NODE_COUNT - n,
        {
            if n != start as usize && may_enter(view, n as u8) {
                let g = goal(n as u8);
                goals[n] = g;
            } else {
                goals[n] = false;
            }
            n = n + 1;
        }
        proof {
            assert(goals@ =~= view_goals(*view, goal, start as int));
        }
        search_view(view, start, &goals)
    }
}

/// Whether the greedy search may enter node `n` (see `view_enter`).
fn may_enter(view: &PlayerView, n: u8) -> (b: bool)
    requires
        n < NODE_COUNT,
        view.figure_id < 8,
    ensures
        b == view_enter(*view)[n as int],
{
    // A hallway cell where another figure stands cannot be entered.
    let others = view.node_states[n as usize].figures & !(1u8 << view.figure_id);
    !(matches!(node_kind(n), NodeKind::Hallway) && others != 0)
}

/// The fewest steps of the greedy search from `start` to a node marked in `goals`.
fn search_view(view: &PlayerView, start: NodeId, goals: &[bool; NODE_COUNT]) -> (r: Option<u32>)
    requires
        start < NODE_COUNT,
        view.figure_id < 8,
        !goals@[start as int],
    ensures
        r matches Some(d) ==> 1 <= d && goal_within(every_node(), view_enter(*view), view_open(*view), goals@, start as int, d as nat)
            && forall|j: nat| j < d ==> !#[trigger] goal_within(every_node(), view_enter(*view), view_open(*view), goals@, start as int, j),
        r is None ==> forall|k: nat| !#[trigger] goal_within(every_node(), view_enter(*view), view_open(*view), goals@, start as int, k),
{
    let expand = [true; NODE_COUNT];
    let mut enter = [true; NODE_COUNT];
    let mut n: usize = 0;
    while n < NODE_COUNT
        invariant
            n <= NODE_COUNT,
            view.figure_id < 8,
            forall|k: int| 0 <= k < n ==> #[trigger] enter@[k] == view_enter(*view)[k],
        decreases NODE_COUNT - n,
    {
        enter[n] = may_enter(view, n as u8);
        n = n + 1;
    }
    let mut open = [false; EDGE_COUNT];
    let mut e: usize = 0;
    while e < EDGE_COUNT
        invariant
            e <= EDGE_COUNT,
            forall|k: int| 0 <= k < e ==> #[trigger] open@[k] == view_open(*view)[k],
        decreases EDGE_COUNT - e,
    {
        open[e] = !view.edge_closed[e];
        e = e + 1;
    }
    proof {
        assert(expand@ =~= every_node());
        assert(enter@ =~= view_enter(*view));
        assert(open@ =~= view_open(*view));
    }
    layered_search(start, &expand, &enter, &open, goals)
}

/// The greedy search distance from `start` to `target` (see `view_distance`).
fn distance_to(view: &PlayerView, start: NodeId, target: NodeId) -> (r: Option<u32>)
    requires
        start < NODE_COUNT,
        view.figure_id < 8,
    ensures
        r matches Some(d) ==> view_distance(*view, start as int, target as int) == Some(d as nat),
        r is None ==> view_distance(*view, start as int, target as int) is None,
{
    if start == target {
        proof {
            reveal(view_distance);
        }
        return Some(0);
    }
    let ghost s = start as int;
    let ghost t = target as int;
    let mut goals = [false; NODE_COUNT];
    let mut n: usize = 0;
    while n < NODE_COUNT
        invariant
            n <= NODE_COUNT,
            view.figure_id < 8,
            s == start,
            t == target,
            forall|k: int| 0 <= k < n ==> #[trigger] goals@[k] == target_goals(*view, s, t)[k],
        decreases NODE_COUNT - n,
    {
        goals[n] = n != start as usize && n == target as usize && may_enter(view, n as u8);
        n = n + 1;
    }
    proof {
        assert(goals@ =~= target_goals(*view, s, t));
    }
    let r = search_view(view, start, &goals);
    proof {
        lemma_distance_found(*view, s, t, r);
    }
    r
}

/// What the search for a target finds is the greedy distance to it.
proof fn lemma_distance_found(view: PlayerView, s: int, t: int, r: Option<u32>)
    requires
        s != t,
        r matches Some(d) ==> goal_within(every_node(), view_enter(view), view_open(view), target_goals(view, s, t), s, d as nat)
            && forall|j: nat| j < d ==> !#[trigger] goal_within(every_node(), view_enter(view), view_open(view), target_goals(view, s, t), s, j),
        r is None ==> forall|k: nat| !#[trigger] goal_within(every_node(), view_enter(view), view_open(view), target_goals(view, s, t), s, k),
    ensures
        r matches Some(d) ==> view_distance(view, s, t) == Some(d as nat),
        r is None ==> view_distance(view, s, t) is None,
{
    reveal(view_distance);
    match r {
        Some(d) => {
            assert(reaches_in(view, s, t, d as nat));
            let m = choose|m: nat| #[trigger] reaches_in(view, s, t, m) && forall|j: nat| j < m ==> !reaches_in(view, s, t, j);
            assert(m == d as nat) by {
                if m < d {
                    assert(!reaches_in(view, s, t, m));
                }
                if d < m {
                    assert(!reaches_in(view, s, t, d as nat));
                }
            }
        },
        None => {
            assert forall|k: nat| !#[trigger] reaches_in(view, s, t, k) by {}
        },
    }
}

/// The first pick-up action among the first `i` legal actions.
pub open spec fn first_pickup(legal: Seq<Action>, i: int) -> Option<Action>
    decreases i,
{
    if i <= 0 {
        None
    } else {
        match first_pickup(legal, i - 1) {
            Some(a) => Some(a),
            None => if legal[i - 1] is PickupJewel {
                Some(legal[i - 1])
            } else {
                None
            },
        }
    }
}

/// Among the first `k` jewel rooms that still hold their jewel, the nearest
/// one the figure at `pos` can reach, and its distance; the earlier room wins a tie.
pub open spec fn nearest_jewel_room(view: PlayerView, pos: int, k: int) -> Option<(int, nat)>
    decreases k,
{
    if k <= 0 {
        None
    } else {
        let prev = nearest_jewel_room(view, pos, k - 1);
        let rn = jewel_home(k - 1);
        if view.node_states@[rn].jewel is Some {
            match view_distance(view, pos, rn) {
                Some(d) => match prev {
                    Some((_, bd)) => if d < bd {
                        Some((rn, d))
                    } else {
                        prev
                    },
                    None => Some((rn, d)),
                },
                None => prev,
            }
        } else {
            prev
        }
    }
}

/// Among the first `i` legal actions, the move whose far end is nearest to
/// `target`, and that distance; the earlier move wins a tie.
pub open spec fn best_move(view: PlayerView, pos: int, target: int, legal: Seq<Action>, i: int) -> Option<(Action, nat)>
    decreases i,
{
    if i <= 0 {
        None
    } else {
        let prev = best_move(view, pos, target, legal, i - 1);
        match legal[i - 1] {
            Action::MoveAlongEdge { edge } => if edge < EDGE_COUNT {
                match view_distance(view, spec_other_end(edge, pos), target) {
                    Some(d) => match prev {
                        Some((_, bd)) => if d < bd {
                            Some((legal[i - 1], d))
                        } else {
                            prev
                        },
                        None => Some((legal[i - 1], d)),
                    },
                    None => prev,
                }
            } else {
                prev
            },
            _ => prev,
        }
    }
}

/// The figure at `pos` is alone in a room with a Spuk, which it cannot fight alone.
pub open spec fn alone_with_spuk(view: PlayerView, pos: int) -> bool {
    view.node_states@[pos].has_spuk && popcount(view.node_states@[pos].figures) <= 1
}

/// The greedy choice. With one legal action, that action. Otherwise, in order:
/// deposit a jewel; pick one up; fight, unless alone with a Spuk (then skip the
/// fight); take the move that brings the figure nearest to its goal, the
/// entrance when it carries a jewel and otherwise the nearest jewel room that
/// still holds its jewel; else the first legal action. A view whose figure or
/// position is off the board gets the first legal action.
pub open spec fn greedy_choice(view: PlayerView) -> Action {
    let legal = view.legal_actions@;
    let fig = view.figure_id as int;
    let pos = view.figure_positions@[fig] as int;
    if legal.len() == 1 || fig >= MAX_FIGURES || pos >= NODE_COUNT {
        legal[0]
    } else if legal.contains(Action::DepositJewel) {
        Action::DepositJewel
    } else if first_pickup(legal, legal.len() as int) is Some {
        match first_pickup(legal, legal.len() as int) {
            Some(a) => a,
            None => legal[0],
        }
    } else if legal.contains(Action::Fight) && !alone_with_spuk(view, pos) {
        Action::Fight
    } else if legal.contains(Action::Fight) && legal.contains(Action::SkipCombat) {
        Action::SkipCombat
    } else {
        let target = if view.figure_carries@[fig] is Some {
            Some(ENTRANCE as int)
        } else {
            match nearest_jewel_room(view, pos, 8) {
                Some((rn, _)) => Some(rn),
                None => None,
            }
        };
        match target {
            Some(t) => match best_move(view, pos, t, legal, legal.len() as int) {
                Some((a, _)) => a,
                None => legal[0],
            },
            None => legal[0],
        }
    }
}

/// How far from `target` the far end of action `a` lies, when `a` is a move
/// along an edge of the board from `pos` and that end can reach `target`.
pub open spec fn move_distance(view: PlayerView, pos: int, target: int, a: Action) -> Option<nat> {
    match a {
        Action::MoveAlongEdge { edge } => if edge < EDGE_COUNT {
            view_distance(view, spec_other_end(edge, pos), target)
        } else {
            None
        },
        _ => None,
    }
}

/// The move `best_move` picks among the first `i` legal actions is the first
/// of those that end nearest to `target`; with none that can reach it, there is none.
proof fn lemma_best_move_nearest(view: PlayerView, pos: int, target: int, legal: Seq<Action>, i: int) -> (k: int)
    requires
        0 <= i <= legal.len(),
    ensures
        best_move(view, pos, target, legal, i) matches Some((a, d)) ==> {
            &&& 0 <= k < i
            &&& legal[k] == a
            &&& move_distance(view, pos, target, a) == Some(d)
            &&& forall|j: int|
                0 <= j < i ==> (#[trigger] move_distance(view, pos, target, legal[j]) matches Some(dj) ==> d <= dj
                    && (j < k ==> d < dj))
        },
        best_move(view, pos, target, legal, i) is None ==> forall|j: int|
            0 <= j < i ==> #[trigger] move_distance(view, pos, target, legal[j]) is None,
    decreases i,
{
    if i <= 0 {
        0
    } else {
        let k0 = lemma_best_move_nearest(view, pos, target, legal, i - 1);
        let prev = best_move(view, pos, target, legal, i - 1);
        let md = move_distance(view, pos, target, legal[i - 1]);
        let cur = best_move(view, pos, target, legal, i);
        assert(cur == match md {
            Some(d) => match prev {
                Some((_, bd)) => if d < bd {
                    Some((legal[i - 1], d))
                } else {
                    prev
                },
                None => Some((legal[i - 1], d)),
            },
            None => prev,
        });
        let k = if md is Some && (prev is None || md.unwrap() < prev.unwrap().1) {
            i - 1
        } else {
            k0
        };
        if cur is Some {
            let (a, d) = cur.unwrap();
            assert forall|j: int| 0 <= j < i implies (#[trigger] move_distance(view, pos, target, legal[j]) matches Some(dj)
                ==> d <= dj && (j < k ==> d < dj)) by {
                if j < i - 1 {
                    assert(move_distance(view, pos, target, legal[j]) == move_distance(view, pos, target, legal[j]));
                }
            }
        } else {
            assert forall|j: int| 0 <= j < i implies #[trigger] move_distance(view, pos, target, legal[j]) is None by {
                if j < i - 1 {
                    assert(move_distance(view, pos, target, legal[j]) == move_distance(view, pos, target, legal[j]));
                }
            }
        }
        k
    }
}

/// A figure that carries a jewel, when no deposit, pick-up or fight is
/// offered, walks towards the entrance: it takes the first of the legal moves
/// whose far end lies nearest to the entrance (`k` is its place in the legal
/// list). When no legal move can reach the entrance, it takes the first legal action.
pub proof fn lemma_greedy_carrier_walks_home(view: PlayerView) -> (k: int)
    requires
        view.legal_actions@.len() > 1,
        view.figure_id < MAX_FIGURES,
        view.figure_positions@[view.figure_id as int] < NODE_COUNT,
        view.figure_carries@[view.figure_id as int] is Some,
        !view.legal_actions@.contains(Action::DepositJewel),
        !view.legal_actions@.contains(Action::Fight),
        forall|i: int| 0 <= i < view.legal_actions@.len() ==> !(#[trigger] view.legal_actions@[i] is PickupJewel),
    ensures
        ({
            let legal = view.legal_actions@;
            let pos = view.figure_positions@[view.figure_id as int] as int;
            if exists|j: int| 0 <= j < legal.len() && #[trigger] move_distance(view, pos, ENTRANCE as int, legal[j]) is Some {
                &&& 0 <= k < legal.len()
                &&& greedy_choice(view) == legal[k]
                &&& legal[k] is MoveAlongEdge
                &&& move_distance(view, pos, ENTRANCE as int, legal[k]) matches Some(d) && forall|j: int|
                    0 <= j < legal.len() ==> (#[trigger] move_distance(view, pos, ENTRANCE as int, legal[j]) matches Some(dj)
                        ==> d <= dj && (j < k ==> d < dj))
            } else {
                greedy_choice(view) == legal[0]
            }
        }),
{
    let legal = view.legal_actions@;
    let pos = view.figure_positions@[view.figure_id as int] as int;
    lemma_first_pickup_none_below(legal, legal.len() as int);
    let k = lemma_best_move_nearest(view, pos, ENTRANCE as int, legal, legal.len() as int);
    if exists|j: int| 0 <= j < legal.len() && #[trigger] move_distance(view, pos, ENTRANCE as int, legal[j]) is Some {
        let j = choose|j: int| 0 <= j < legal.len() && #[trigger] move_distance(view, pos, ENTRANCE as int, legal[j]) is Some;
        assert(best_move(view, pos, ENTRANCE as int, legal, legal.len() as int) is Some);
    }
    k
}

/// How far the figure at `pos` is from the home room of jewel `r`, when that
/// room still holds its jewel and can be reached.
pub open spec fn room_distance(view: PlayerView, pos: int, r: int) -> Option<nat> {
    if view.node_states@[jewel_home(r)].jewel is Some {
        view_distance(view, pos, jewel_home(r))
    } else {
        None
    }
}

/// The room `nearest_jewel_room` picks among the first `k` jewel rooms is the
/// first of the reachable rooms still holding a jewel that lie nearest.
proof fn lemma_nearest_jewel_room(view: PlayerView, pos: int, k: int) -> (r: int)
    requires
        0 <= k,
    ensures
        nearest_jewel_room(view, pos, k) matches Some((rn, d)) ==> {
            &&& 0 <= r < k
            &&& rn == jewel_home(r)
            &&& room_distance(view, pos, r) == Some(d)
            &&& forall|j: int|
                0 <= j < k ==> (#[trigger] room_distance(view, pos, j) matches Some(dj) ==> d <= dj && (j < r ==> d
                    < dj))
        },
        nearest_jewel_room(view, pos, k) is None ==> forall|j: int|
            0 <= j < k ==> #[trigger] room_distance(view, pos, j) is None,
    decreases k,
{
    if k <= 0 {
        0
    } else {
        let r0 = lemma_nearest_jewel_room(view, pos, k - 1);
        let prev = nearest_jewel_room(view, pos, k - 1);
        let md = room_distance(view, pos, k - 1);
        let cur = nearest_jewel_room(view, pos, k);
        assert(cur == match md {
            Some(d) => match prev {
                Some((_, bd)) => if d < bd {
                    Some((jewel_home(k - 1), d))
                } else {
                    prev
                },
                None => Some((jewel_home(k - 1), d)),
            },
            None => prev,
        });
        let r = if md is Some && (prev is None || md.unwrap() < prev.unwrap().1) {
            k - 1
        } else {
            r0
        };
        if cur is Some {
            let (rn, d) = cur.unwrap();
            assert forall|j: int| 0 <= j < k implies (#[trigger] room_distance(view, pos, j) matches Some(dj) ==> d
                <= dj && (j < r ==> d < dj)) by {
                if j < k - 1 {
                    assert(room_distance(view, pos, j) == room_distance(view, pos, j));
                }
            }
        } else {
            assert forall|j: int| 0 <= j < k implies #[trigger] room_distance(view, pos, j) is None by {
                if j < k - 1 {
                    assert(room_distance(view, pos, j) == room_distance(view, pos, j));
                }
            }
        }
        r
    }
}

/// A figure with empty hands, when no deposit, pick-up or fight is offered,
/// heads for the nearest room that still holds its jewel: `r` is the first
/// jewel whose room, still holding it, lies nearest among those it can reach,
/// and the figure takes the first of the legal moves whose far end lies
/// nearest to that room (`k` is its place in the legal list). Without such a
/// room, or a legal move that can reach it, it takes the first legal action.
pub proof fn lemma_greedy_seeker_walks_to_nearest_jewel(view: PlayerView) -> (rk: (int, int))
    requires
        view.legal_actions@.len() > 1,
        view.figure_id < MAX_FIGURES,
        view.figure_positions@[view.figure_id as int] < NODE_COUNT,
        view.figure_carries@[view.figure_id as int] is None,
        !view.legal_actions@.contains(Action::DepositJewel),
        !view.legal_actions@.contains(Action::Fight),
        forall|i: int| 0 <= i < view.legal_actions@.len() ==> !(#[trigger] view.legal_actions@[i] is PickupJewel),
    ensures
        ({
            let legal = view.legal_actions@;
            let pos = view.figure_positions@[view.figure_id as int] as int;
            let (r, k) = rk;
            if exists|j: int| 0 <= j < 8 && #[trigger] room_distance(view, pos, j) is Some {
                &&& 0 <= r < 8
                &&& room_distance(view, pos, r) matches Some(d) && forall|j: int|
                    0 <= j < 8 ==> (#[trigger] room_distance(view, pos, j) matches Some(dj) ==> d <= dj && (j < r
                        ==> d < dj))
                &&& if exists|j: int|
                    0 <= j < legal.len() && #[trigger] move_distance(view, pos, jewel_home(r), legal[j]) is Some {
                    &&& 0 <= k < legal.len()
                    &&& greedy_choice(view) == legal[k]
                    &&& legal[k] is MoveAlongEdge
                    &&& move_distance(view, pos, jewel_home(r), legal[k]) matches Some(d) && forall|j: int|
                        0 <= j < legal.len() ==> (#[trigger] move_distance(view, pos, jewel_home(r), legal[j]) matches Some(
                            dj,
                        ) ==> d <= dj && (j < k ==> d < dj))
                } else {
                    greedy_choice(view) == legal[0]
                }
            } else {
                greedy_choice(view) == legal[0]
            }
        }),
{
    let legal = view.legal_actions@;
    let pos = view.figure_positions@[view.figure_id as int] as int;
    lemma_first_pickup_none_below(legal, legal.len() as int);
    let r = lemma_nearest_jewel_room(view, pos, 8);
    if exists|j: int| 0 <= j < 8 && #[trigger] room_distance(view, pos, j) is Some {
        let j = choose|j: int| 0 <= j < 8 && #[trigger] room_distance(view, pos, j) is Some;
        assert(nearest_jewel_room(view, pos, 8) is Some);
        let k = lemma_best_move_nearest(view, pos, jewel_home(r), legal, legal.len() as int);
        if exists|j: int| 0 <= j < legal.len() && #[trigger] move_distance(view, pos, jewel_home(r), legal[j]) is Some {
            let j = choose|j: int| 0 <= j < legal.len() && #[trigger] move_distance(view, pos, jewel_home(r), legal[j]) is Some;
            assert(best_move(view, pos, jewel_home(r), legal, legal.len() as int) is Some);
        }
        (r, k)
    } else {
        assert(nearest_jewel_room(view, pos, 8) is None);
        (r, 0)
    }
}

/// The greedy strategy always answers with a legal action, and puts the
/// phases' own actions first: with a deposit offered it deposits; otherwise
/// with a pick-up offered it takes the first one; otherwise, offered a fight,
/// it fights unless its figure stands alone with a Spuk, in which case it
/// skips the fight when it may.
pub proof fn lemma_greedy_priorities(view: PlayerView)
    requires
        view.legal_actions@.len() > 1,
        view.figure_id < MAX_FIGURES,
        view.figure_positions@[view.figure_id as int] < NODE_COUNT,
    ensures
        ({
            let legal = view.legal_actions@;
            let pos = view.figure_positions@[view.figure_id as int] as int;
            let ns = view.node_states@[pos];
            let alone_with_spuk = ns.has_spuk && popcount(ns.figures) <= 1;
            let no_pickup = forall|i: int| 0 <= i < legal.len() ==> !(#[trigger] legal[i] is PickupJewel);
            &&& legal.contains(greedy_choice(view))
            &&& legal.contains(Action::DepositJewel) ==> greedy_choice(view) == Action::DepositJewel
            &&& !legal.contains(Action::DepositJewel) && !no_pickup ==> greedy_choice(view) is PickupJewel && exists|k: int|
                0 <= k < legal.len() && legal[k] == greedy_choice(view) && forall|j: int|
                    0 <= j < k ==> !(#[trigger] legal[j] is PickupJewel)
            &&& !legal.contains(Action::DepositJewel) && no_pickup && legal.contains(Action::Fight) && !alone_with_spuk
                ==> greedy_choice(view) == Action::Fight
            &&& !legal.contains(Action::DepositJewel) && no_pickup && legal.contains(Action::Fight) && alone_with_spuk
                && legal.contains(Action::SkipCombat) ==> greedy_choice(view) == Action::SkipCombat
        }),
{
    let legal = view.legal_actions@;
    let pos = view.figure_positions@[view.figure_id as int] as int;
    let no_pickup = forall|i: int| 0 <= i < legal.len() ==> !(#[trigger] legal[i] is PickupJewel);
    if no_pickup {
        lemma_first_pickup_none_below(legal, legal.len() as int);
    } else {
        let k = lemma_first_pickup_at(legal, legal.len() as int);
    }
    assert(legal.contains(legal[0]));
    let fig = view.figure_id as int;
    let target = if view.figure_carries@[fig] is Some {
        Some(ENTRANCE as int)
    } else {
        match nearest_jewel_room(view, pos, 8) {
            Some((rn, _)) => Some(rn),
            None => None,
        }
    };
    if let Some(t) = target {
        lemma_best_move_offered(view, pos, t, legal, legal.len() as int);
    }
}

/// With a pick-up action among the first `i` legal actions, the first such is found.
proof fn lemma_first_pickup_at(legal: Seq<Action>, i: int) -> (k: int)
    requires
        i <= legal.len(),
    ensures
        (exists|j: int| 0 <= j < i && #[trigger] legal[j] is PickupJewel) ==> {
            &&& 0 <= k < i
            &&& first_pickup(legal, i) == Some(legal[k])
            &&& legal[k] is PickupJewel
            &&& forall|j: int| 0 <= j < k ==> !(#[trigger] legal[j] is PickupJewel)
        },
    decreases i,
{
    if i <= 0 {
        0
    } else {
        let k0 = lemma_first_pickup_at(legal, i - 1);
        if exists|j: int| 0 <= j < i - 1 && #[trigger] legal[j] is PickupJewel {
            k0
        } else {
            if legal[i - 1] is PickupJewel {
                lemma_first_pickup_none_below(legal, i - 1);
            }
            i - 1
        }
    }
}

/// Without a pick-up action among the first `i` legal actions, there is no first one.
proof fn lemma_first_pickup_none_below(legal: Seq<Action>, i: int)
    requires
        i <= legal.len(),
        forall|j: int| 0 <= j < i ==> !(#[trigger] legal[j] is PickupJewel),
    ensures
        first_pickup(legal, i) is None,
    decreases i,
{
    if i > 0 {
        lemma_first_pickup_none_below(legal, i - 1);
    }
}

/// A pick-up action found among the first `k` stays the first among more.
proof fn lemma_first_pickup_stays(legal: Seq<Action>, k: int, m: int)
    requires
        0 <= k <= m,
        first_pickup(legal, k) is Some,
    ensures
        first_pickup(legal, m) == first_pickup(legal, k),
    decreases m - k,
{
    if k < m {
        lemma_first_pickup_stays(legal, k, m - 1);
    }
}

/// The best move is one of the legal actions.
proof fn lemma_best_move_offered(view: PlayerView, pos: int, target: int, legal: Seq<Action>, i: int)
    requires
        0 <= i <= legal.len(),
    ensures
        best_move(view, pos, target, legal, i) matches Some((a, _)) ==> legal.contains(a),
    decreases i,
{
    if i > 0 {
        lemma_best_move_offered(view, pos, target, legal, i - 1);
        if best_move(view, pos, target, legal, i) != best_move(view, pos, target, legal, i - 1) {
            assert(legal[i - 1] == legal[i - 1]);
        }
    }
}

/// Whether `a` is among `legal`.
fn offers(legal: &Vec<Action>, a: Action) -> (b: bool)
    ensures
        b == legal@.contains(a),
{
    let mut i: usize = 0;
    while i < legal.len()
        invariant
            i <= legal.len(),
            forall|k: int| 0 <= k < i ==> legal@[k] != a,
        decreases legal.len() - i,
    {
        if legal[i] == a {
            return true;
        }
        i = i + 1;
    }
    false
}

/// The node to walk towards: the entrance with a jewel in hand, otherwise the
/// nearest jewel room that still holds its jewel.
#[verifier::rlimit(40)]
fn goal_node(view: &PlayerView, pos: NodeId, carrying: bool) -> (t: Option<NodeId>)
    requires
        pos < NODE_COUNT,
        view.figure_id < 8,
    ensures
        carrying ==> t == Some(ENTRANCE),
        !carrying ==> (t matches Some(n) ==> nearest_jewel_room(*view, pos as int, 8) matches Some((rn, _)) && rn == n as int),
        !carrying ==> (t is None ==> nearest_jewel_room(*view, pos as int, 8) is None),
{
    if carrying {
        return Some(ENTRANCE);
    }
    let rooms = RoomLabel::STARTS_WITH_JEWEL;
    let mut best: Option<(NodeId, u32)> = None;
    let mut k: usize = 0;
    while k < 8
        invariant
            k <= 8,
            pos < NODE_COUNT,
            view.figure_id < 8,
            rooms == RoomLabel::STARTS_WITH_JEWEL,
            best matches Some((n, d)) ==> nearest_jewel_room(*view, pos as int, k as int) == Some((n as int, d as nat)),
            best is None ==> nearest_jewel_room(*view, pos as int, k as int) is None,
        decreases 8 - k,
    {
        let rn = room_node(rooms[k]);
        proof {
            assert(rn as int == jewel_home(k as int));
        }
        let ghost prev = nearest_jewel_room(*view, pos as int, k as int);
        assert(nearest_jewel_room(*view, pos as int, k + 1) == if view.node_states@[rn as int].jewel is Some {
            match view_distance(*view, pos as int, rn as int) {
                Some(d) => match prev {
                    Some((_, bd)) => if d < bd {
                        Some((rn as int, d))
                    } else {
                        prev
                    },
                    None => Some((rn as int, d)),
                },
                None => prev,
            }
        } else {
            prev
        });
        if view.node_states[rn as usize].jewel.is_some() {
            match distance_to(view, pos, rn) {
                Some(d) => {
                    let better = match best {
                        Some((_, bd)) => d < bd,
                        None => true,
                    };
                    if better {
                        best = Some((rn, d));
                    }
                },
                None => {},
            }
        }
        k = k + 1;
    }
    match best {
        Some((n, _)) => Some(n),
        None => None,
    }
}

/// The move that brings the figure at `pos` nearest to `target` (see `best_move`).
#[verifier::rlimit(40)]
fn nearest_move(view: &PlayerView, pos: NodeId, target: NodeId) -> (m: Option<Action>)
    requires
        pos < NODE_COUNT,
        view.figure_id < 8,
    ensures
        m matches Some(a) ==> best_move(*view, pos as int, target as int, view.legal_actions@, view.legal_actions@.len() as int) matches Some((b, _)) && a == b,
        m is None ==> best_move(*view, pos as int, target as int, view.legal_actions@, view.legal_actions@.len() as int) is None,
{
    let legal = &view.legal_actions;
    let mut best: Option<(Action, u32)> = None;
    let mut i: usize = 0;
    while i < legal.len()
        invariant
            i <= legal@.len(),
            pos < NODE_COUNT,
            view.figure_id < 8,
            legal@ == view.legal_actions@,
            best matches Some((a, d)) ==> best_move(*view, pos as int, target as int, legal@, i as int) == Some((a, d as nat)),
            best is None ==> best_move(*view, pos as int, target as int, legal@, i as int) is None,
        decreases legal@.len() - i,
    {
        let a = legal[i];
        let ghost prev = best_move(*view, pos as int, target as int, legal@, i as int);
        assert(best_move(*view, pos as int, target as int, legal@, i + 1) == match legal@[i as int] {
            Action::MoveAlongEdge { edge } => if edge < EDGE_COUNT {
                match view_distance(*view, spec_other_end(edge, pos as int), target as int) {
                    Some(d) => match prev {
                        Some((_, bd)) => if d < bd {
                            Some((legal@[i as int], d))
                        } else {
                            prev
                        },
                        None => Some((legal@[i as int], d)),
                    },
                    None => prev,
                }
            } else {
                prev
            },
            _ => prev,
        });
        if let Action::MoveAlongEdge { edge } = a {
            if edge < 45 {
                let dest = crate::rules::other_end(edge, pos);
                proof {
                    crate::board::lemma_edge_ends(edge);
                }
                match distance_to(view, dest, target) {
                    Some(d) => {
                        let better = match best {
                            Some((_, bd)) => d < bd,
                            None => true,
                        };
                        if better {
                            best = Some((a, d));
                        }
                    },
                    None => {},
                }
            }
        }
        i = i + 1;
    }
    match best {
        Some((a, _)) => Some(a),
        None => None,
    }
}

impl Strategy for GreedyStrategy {
    /// The greedy choice and nothing else.
    open spec fn answers(view: PlayerView, a: Action) -> bool {
        a == greedy_choice(view)
    }

    /// The greedy choice (see `greedy_choice`).
    fn choose_action(&mut self, view: &PlayerView) -> (a: Action)
        ensures
            a == greedy_choice(*view),
    {
        let legal = &view.legal_actions;
        // Single-choice phases: the only option.
        if legal.len() == 1 {
            return legal[0];
        }
        let fig = view.figure_id as usize;
        if fig >= MAX_FIGURES || view.figure_positions[fig] >= 36 {
            return legal[0];
        }
        let pos = view.figure_positions[fig];
        let carrying = view.figure_carries[fig].is_some();
        // 1. Deposit a jewel if possible.
        if offers(legal, Action::DepositJewel) {
            return Action::DepositJewel;
        }
        // 2. Pick up a jewel if one is offered.
        let mut i: usize = 0;
        while i < legal.len()
            invariant
                i <= legal@.len(),
                legal@ == view.legal_actions@,
                legal@.len() != 1,
                !legal@.contains(Action::DepositJewel),
                fig == view.figure_id,
                fig < MAX_FIGURES,
                pos == view.figure_positions@[fig as int],
                pos < NODE_COUNT,
                first_pickup(legal@, i as int) is None,
            decreases legal@.len() - i,
        {
            if let Action::PickupJewel { .. } = legal[i] {
                proof {
                    assert(first_pickup(legal@, i + 1) == Some(legal@[i as int]));
                    lemma_first_pickup_stays(legal@, i + 1, legal@.len() as int);
                }
                return legal[i];
            }
            i = i + 1;
        }
        // 3. Fight, unless alone with a Spuk, which cannot be fought alone.
        if offers(legal, Action::Fight) {
            let ns = view.node_states[pos as usize];
            if !(ns.has_spuk && ns.figure_count() <= 1) {
                return Action::Fight;
            }
            if offers(legal, Action::SkipCombat) {
                return Action::SkipCombat;
            }
        }
        // 4. Move: take the edge that brings the figure nearest to its goal.
        if let Some(target) = goal_node(view, pos, carrying) {
            if let Some(a) = nearest_move(view, pos, target) {
                proof {
                    lemma_best_move_offered(*view, pos as int, target as int, legal@, legal@.len() as int);
                }
                return a;
            }
        }
        // 5. Otherwise the first legal action.
        legal[0]
    }
}

impl Default for GreedyStrategy {
    /// A greedy strategy.
    fn default() -> (g: Self) {
        Self::new()
    }
}

} // verus!
