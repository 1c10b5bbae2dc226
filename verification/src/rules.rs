//! Pure queries over the game state: terminal conditions, movement, jewels,
//! combat, the legal actions and breadth-first distances. Nothing here mutates.
use vstd::prelude::*;

use crate::action::Action;
use crate::board::{
    build_adjacency, edges_at, is_hallway_node, is_room_node, lemma_incident_upto, node_kind,
    spec_other_end, EdgeId, NodeId, NodeKind, EDGE_COUNT, ENTRANCE, NODE_COUNT,
};
use crate::search::{goal_within, layered_search};
use crate::state::{popcount, GameState, JewelId, NodeState, TurnPhase, JEWEL_COUNT, MAX_FIGURES, MAX_SPUK};

verus! {

/// The indices that the rule queries read are in range: the active figure, the
/// figure count, every figure position and every jewel id lying in a node.
pub open spec fn indices_ok(s: GameState) -> bool {
    &&& s.active_figure < MAX_FIGURES
    &&& s.figure_count <= MAX_FIGURES
    &&& forall|i: int| 0 <= i < MAX_FIGURES ==> (#[trigger] s.figure_pos@[i]) < NODE_COUNT
    &&& forall|n: int|
        0 <= n < NODE_COUNT ==> ((#[trigger] s.node_states@[n]).jewel matches Some(j) ==> j < JEWEL_COUNT)
}

/// The node of the active figure.
pub open spec fn active_pos(s: GameState) -> int {
    s.figure_pos@[s.active_figure as int] as int
}

/// Whether the active figure carries a jewel.
pub open spec fn carrying(s: GameState) -> bool {
    s.figure_carries@[s.active_figure as int] is Some
}

/// The runtime state of node `n`.
pub open spec fn node_at(s: GameState, n: int) -> NodeState {
    s.node_states@[n]
}

/// The active figure and its node are on the board: what the queries about the
/// active figure's node read.
pub open spec fn active_on_board(s: GameState) -> bool {
    s.active_figure < MAX_FIGURES && active_pos(s) < NODE_COUNT
}

/// What `can_pickup` reads is in range: the active figure; unless it carries a
/// jewel, its node; and, in the numbered-jewel variant, the id of the jewel
/// lying in its room.
pub open spec fn pickup_readable(s: GameState) -> bool {
    &&& s.active_figure < MAX_FIGURES
    &&& !carrying(s) ==> active_pos(s) < NODE_COUNT && (is_room_node(active_pos(s)) && s.variant.numbered_jewels ==> (
    node_at(s, active_pos(s)).jewel matches Some(j) ==> j < JEWEL_COUNT))
}

/// What `is_win` reads is in range: when every jewel is deposited and the
/// first four figures stand at the entrance, there are at most four figures.
pub open spec fn win_readable(s: GameState) -> bool {
    (forall|j: int| 0 <= j < JEWEL_COUNT ==> #[trigger] s.jewel_deposited@[j]) && (forall|i: int|
        0 <= i < MAX_FIGURES ==> #[trigger] s.figure_pos@[i] == ENTRANCE) ==> s.figure_count <= MAX_FIGURES
}

/// What `is_loss` reads is in range: unless six Spuk are on the board, each
/// figure the check reaches (every earlier one being trapped) has an index
/// below four and, when it carries a jewel, stands on the board.
pub open spec fn loss_readable(s: GameState) -> bool {
    s.spuk_count >= MAX_SPUK || forall|i: int|
        #![trigger s.figure_carries@[i]]
        0 <= i < s.figure_count && (forall|k: int| 0 <= k < i ==> #[trigger] trapped(s, k)) ==> i < MAX_FIGURES && (
        s.figure_carries@[i] is Some ==> s.figure_pos@[i] < NODE_COUNT)
}

/// What `legal_actions_into` reads is in range, phase by phase.
pub open spec fn legal_readable(s: GameState) -> bool {
    !s.game_over ==> match s.phase {
        TurnPhase::RollDie => true,
        TurnPhase::DrawGhostCard { .. } => true,
        TurnPhase::Move => active_on_board(s),
        TurnPhase::PickupJewel => s.active_figure < MAX_FIGURES && (!(carrying(s) && active_pos(s) == ENTRANCE)
            ==> pickup_readable(s)),
        TurnPhase::Combat => active_on_board(s),
        TurnPhase::EndTurn => s.active_figure < MAX_FIGURES,
    }
}

/// All jewels are deposited and every active figure stands at the entrance.
pub open spec fn spec_is_win(s: GameState) -> bool {
    &&& forall|j: int| 0 <= j < JEWEL_COUNT ==> #[trigger] s.jewel_deposited@[j]
    &&& forall|i: int| 0 <= i < s.figure_count ==> #[trigger] s.figure_pos@[i] == ENTRANCE
}

/// Figure `i` carries a jewel and is alone in a Spuk room.
pub open spec fn trapped(s: GameState, i: int) -> bool {
    let pos = s.figure_pos@[i] as int;
    &&& s.figure_carries@[i] is Some
    &&& node_at(s, pos).has_spuk
    &&& popcount(node_at(s, pos).figures) == 1
}

/// Six Spuk are on the board, or every active figure is trapped (an unwinnable deadlock).
pub open spec fn spec_is_loss(s: GameState) -> bool {
    s.spuk_count >= MAX_SPUK || forall|i: int| 0 <= i < s.figure_count ==> #[trigger] trapped(s, i)
}

/// True when all jewels are deposited and all active figures are at the entrance.
pub fn is_win(state: &GameState) -> (b: bool)
    requires
        win_readable(*state),
    ensures
        b == spec_is_win(*state),
{
    let mut j: usize = 0;
    while j < JEWEL_COUNT
        invariant
            j <= JEWEL_COUNT,
            forall|k: int| 0 <= k < j ==> #[trigger] state.jewel_deposited@[k],
        decreases JEWEL_COUNT - j,
    {
        if !state.jewel_deposited[j] {
            return false;
        }
        j = j + 1;
    }
    let fc = state.figure_count as usize;
    let mut i: usize = 0;
    while i < fc
        invariant
            fc == state.figure_count,
            win_readable(*state),
            forall|k: int| 0 <= k < JEWEL_COUNT ==> #[trigger] state.jewel_deposited@[k],
            i <= fc,
            forall|k: int| 0 <= k < i ==> #[trigger] state.figure_pos@[k] == ENTRANCE,
        decreases fc - i,
    {
        if i >= MAX_FIGURES {
            // Every jewel is deposited and the first four figures stand at the
            // entrance, so there are no more figures.
            proof {
                assert(forall|k: int| 0 <= k < MAX_FIGURES ==> #[trigger] state.figure_pos@[k] == ENTRANCE);
            }
            assert(false);
        }
        if state.figure_pos[i] != ENTRANCE {
            return false;
        }
        i = i + 1;
    }
    true
}

/// True when six Spuk are on the board, or every active figure carries a jewel
/// and is alone in a Spuk room.
pub fn is_loss(state: &GameState) -> (b: bool)
    requires
        loss_readable(*state),
    ensures
        b == spec_is_loss(*state),
{
    if state.spuk_count >= MAX_SPUK {
        return true;
    }
    let fc = state.figure_count as usize;
    let mut i: usize = 0;
    while i < fc
        invariant
            loss_readable(*state),
            state.spuk_count < MAX_SPUK,
            fc == state.figure_count,
            i <= fc,
            forall|k: int| 0 <= k < i ==> #[trigger] trapped(*state, k),
        decreases fc - i,
    {
        proof {
            assert(state.figure_carries@[i as int] == state.figure_carries@[i as int]);
        }
        if state.figure_carries[i].is_none() {
            proof {
                assert(!trapped(*state, i as int));
            }
            return false;
        }
        let pos = state.figure_pos[i] as usize;
        let ns = &state.node_states[pos];
        if !(ns.has_spuk && ns.figure_count() == 1) {
            proof {
                assert(!trapped(*state, i as int));
            }
            return false;
        }
        i = i + 1;
    }
    true
}

/// True once the game is over.
pub fn is_terminal(state: &GameState) -> (b: bool)
    ensures
        b == state.game_over,
{
    state.game_over
}

/// Whether edge `e` is open in state `s`.
pub open spec fn edge_open(s: GameState, e: EdgeId) -> bool {
    !s.edge_states@[e as int].closed
}

/// True if the given edge is currently passable (not blocked).
pub fn edge_passable(state: &GameState, edge: EdgeId) -> (b: bool)
    requires
        edge < EDGE_COUNT,
    ensures
        b == edge_open(*state, edge),
{
    !state.edge_states[edge as usize].closed
}

/// For a figure at `from`, returns the node on the other side of `edge`.
pub fn other_end(edge: EdgeId, from: NodeId) -> (n: NodeId)
    requires
        edge < EDGE_COUNT,
    ensures
        n == spec_other_end(edge, from as int),
{
    let e = crate::board::edge_desc(edge);
    if e.node_a == from {
        e.node_b
    } else {
        e.node_a
    }
}

/// The open edges among `es`, in order.
pub open spec fn open_edges(s: GameState, es: Seq<EdgeId>) -> Seq<EdgeId>
    decreases es.len(),
{
    if es.len() == 0 {
        seq![]
    } else {
        open_edges(s, es.drop_last()) + if edge_open(s, es.last()) {
            seq![es.last()]
        } else {
            seq![]
        }
    }
}

/// The edges the active figure may take in one step: the open edges of its
/// node, none at all when it carries a jewel in a Spuk room (Spuk trap).
/// Occupied hallway cells may be entered; stopping there is ruled out elsewhere.
pub open spec fn spec_reachable_edges(s: GameState) -> Seq<EdgeId> {
    if carrying(s) && node_at(s, active_pos(s)).has_spuk {
        seq![]
    } else {
        open_edges(s, edges_at(active_pos(s)))
    }
}

/// Returns all edges the active figure can legally traverse in one step from its node.
pub fn reachable_edges(state: &GameState) -> (es: Vec<EdgeId>)
    requires
        active_on_board(*state),
    ensures
        es@ == spec_reachable_edges(*state),
        carrying(*state) && node_at(*state, active_pos(*state)).has_spuk ==> es@.len() == 0,
{
    let fig = state.active_figure;
    let pos = state.figure_pos[fig as usize];
    let carrying = state.figure_carries[fig as usize].is_some();
    let in_spuk_room = state.node_states[pos as usize].has_spuk;
    let mut out: Vec<EdgeId> = Vec::new();
    if carrying && in_spuk_room {
        return out;
    }
    let adj = build_adjacency();
    let es = adj.edges_of(pos);
    proof {
        lemma_incident_upto(pos as int, EDGE_COUNT as nat);
    }
    let mut i: usize = 0;
    while i < es.len()
        invariant
            es@ == edges_at(pos as int),
            pos as int == active_pos(*state),
            i <= es.len(),
            forall|k: int| 0 <= k < es@.len() ==> (#[trigger] es@[k]) < EDGE_COUNT,
            out@ == open_edges(*state, es@.take(i as int)),
        decreases es.len() - i,
    {
        let e = es[i];
        proof {
            assert(es@.take(i + 1).drop_last() =~= es@.take(i as int));
        }
        if edge_passable(state, e) {
            out.push(e);
        }
        i = i + 1;
    }
    proof {
        assert(es@.take(es@.len() as int) =~= es@);
    }
    out
}

/// Returns the jewel id currently in `node`, if any.
pub fn jewel_in_node(state: &GameState, node: NodeId) -> (j: Option<JewelId>)
    requires
        node < NODE_COUNT,
    ensures
        j == node_at(*state, node as int).jewel,
{
    state.node_states[node as usize].jewel
}

/// The active figure may pick up a jewel: it carries none, stands in a room
/// holding a jewel, and (numbered-jewel variant) the jewel's number is revealed
/// and is the next one required.
pub open spec fn spec_can_pickup(s: GameState) -> bool {
    let pos = active_pos(s);
    &&& !carrying(s)
    &&& is_room_node(pos)
    &&& match node_at(s, pos).jewel {
        Some(j) => if s.variant.numbered_jewels {
            s.jewel_number@[j as int] != 0 && s.jewel_number@[j as int] == s.next_required_jewel
        } else {
            true
        },
        None => false,
    }
}

/// True if the active figure may pick up a jewel right now.
pub fn can_pickup(state: &GameState) -> (b: bool)
    requires
        pickup_readable(*state),
    ensures
        b == spec_can_pickup(*state),
{
    let fig = state.active_figure as usize;
    if state.figure_carries[fig].is_some() {
        return false;
    }
    let pos = state.figure_pos[fig];
    if !matches!(node_kind(pos), NodeKind::Room(_)) {
        return false;
    }
    let jewel_id = match state.node_states[pos as usize].jewel {
        Some(j) => j,
        None => {
            return false;
        },
    };
    if state.variant.numbered_jewels {
        let revealed = state.jewel_number[jewel_id as usize];
        // 0 means not yet revealed: not pickable until a figure has entered the room.
        revealed != 0 && revealed == state.next_required_jewel
    } else {
        true
    }
}

/// The active figure stands in a room holding ghosts or a Spuk.
pub open spec fn spec_can_fight(s: GameState) -> bool {
    let ns = node_at(s, active_pos(s));
    is_room_node(active_pos(s)) && (ns.ghosts > 0 || ns.has_spuk)
}

/// True if there are ghosts or a Spuk in the active figure's room to fight.
pub fn can_fight(state: &GameState) -> (b: bool)
    requires
        active_on_board(*state),
    ensures
        b == spec_can_fight(*state),
{
    let pos = state.figure_pos[state.active_figure as usize];
    if !matches!(node_kind(pos), NodeKind::Room(_)) {
        return false;
    }
    let ns = &state.node_states[pos as usize];
    ns.ghosts > 0 || ns.has_spuk
}

/// True if a Spuk in the active figure's room can be fought (two or more figures there).
pub fn can_fight_spuk(state: &GameState) -> (b: bool)
    requires
        active_on_board(*state),
    ensures
        b == (node_at(*state, active_pos(*state)).has_spuk && popcount(node_at(*state, active_pos(*state)).figures) >= 2),
{
    let pos = state.figure_pos[state.active_figure as usize];
    let ns = &state.node_states[pos as usize];
    ns.has_spuk && ns.figure_count() >= 2
}

/// The active figure stands on a hallway cell shared with another figure
/// (it may pass through but not stop there).
pub open spec fn on_occupied_hallway(s: GameState) -> bool {
    is_hallway_node(active_pos(s)) && popcount(node_at(s, active_pos(s)).figures) > 1
}

/// One move action per edge, in order.
pub open spec fn move_actions(es: Seq<EdgeId>) -> Seq<Action> {
    Seq::new(es.len(), |i: int| Action::MoveAlongEdge { edge: es[i] })
}

/// The legal actions of a state, in the order the engine lists them.
pub open spec fn spec_legal_actions(s: GameState) -> Seq<Action> {
    let at_entrance_with_jewel = carrying(s) && active_pos(s) == ENTRANCE;
    if s.game_over {
        seq![]
    } else {
        match s.phase {
            TurnPhase::RollDie => seq![Action::RollDie],
            TurnPhase::DrawGhostCard { .. } => seq![Action::DrawGhostCard],
            TurnPhase::Move => move_actions(spec_reachable_edges(s)) + if on_occupied_hallway(s) {
                seq![]
            } else if at_entrance_with_jewel {
                seq![Action::StopMoving, Action::DepositJewel]
            } else {
                seq![Action::StopMoving]
            },
            TurnPhase::PickupJewel => if at_entrance_with_jewel {
                seq![Action::DepositJewel, Action::SkipPickup]
            } else if spec_can_pickup(s) {
                seq![Action::PickupJewel { jewel: node_at(s, active_pos(s)).jewel.unwrap() }, Action::SkipPickup]
            } else {
                seq![Action::SkipPickup]
            },
            TurnPhase::Combat => if spec_can_fight(s) {
                seq![Action::Fight, Action::SkipCombat]
            } else {
                seq![Action::SkipCombat]
            },
            TurnPhase::EndTurn => if at_entrance_with_jewel {
                seq![Action::DepositJewel, Action::EndTurn]
            } else {
                seq![Action::EndTurn]
            },
        }
    }
}

/// Writes the legal actions for the current state into `buf`, replacing its contents.
pub fn legal_actions_into(state: &GameState, buf: &mut Vec<Action>)
    requires
        legal_readable(*state),
    ensures
        final(buf)@ == spec_legal_actions(*state),
{
    buf.clear();
    if state.game_over {
        return;
    }
    match state.phase {
        TurnPhase::RollDie => {
            buf.push(Action::RollDie);
        },
        TurnPhase::DrawGhostCard { .. } => {
            buf.push(Action::DrawGhostCard);
        },
        TurnPhase::Move => {
            let edges = reachable_edges(state);
            let mut i: usize = 0;
            while i < edges.len()
                invariant
                    i <= edges.len(),
                    buf@ == move_actions(edges@.take(i as int)),
                decreases edges.len() - i,
            {
                buf.push(Action::MoveAlongEdge { edge: edges[i] });
                proof {
                    assert(buf@ =~= move_actions(edges@.take(i + 1)));
                }
                i = i + 1;
            }
            proof {
                assert(edges@.take(edges@.len() as int) =~= edges@);
            }
            let ghost moves = buf@;
            let fig = state.active_figure as usize;
            let pos = state.figure_pos[fig];
            // May only stop when not on an occupied hallway cell (pass-through rule).
            let occupied_hallway = matches!(node_kind(pos), NodeKind::Hallway)
                && state.node_states[pos as usize].figure_count() > 1;
            if !occupied_hallway {
                buf.push(Action::StopMoving);
                if state.figure_carries[fig].is_some() && pos == ENTRANCE {
                    buf.push(Action::DepositJewel);
                }
            }
            proof {
                if on_occupied_hallway(*state) {
                    assert(buf@ =~= moves + seq![]);
                } else if carrying(*state) && active_pos(*state) == ENTRANCE {
                    assert(buf@ =~= moves + seq![Action::StopMoving, Action::DepositJewel]);
                } else {
                    assert(buf@ =~= moves + seq![Action::StopMoving]);
                }
            }
        },
        TurnPhase::PickupJewel => {
            // Deposit first if at the entrance with a jewel (movement may have ended there).
            let fig = state.active_figure as usize;
            if state.figure_carries[fig].is_some() && state.figure_pos[fig] == ENTRANCE {
                buf.push(Action::DepositJewel);
            } else if can_pickup(state) {
                let pos = state.figure_pos[fig];
                if let Some(jewel) = state.node_states[pos as usize].jewel {
                    buf.push(Action::PickupJewel { jewel });
                }
            }
            buf.push(Action::SkipPickup);
        },
        TurnPhase::Combat => {
            if can_fight(state) {
                buf.push(Action::Fight);
            }
            buf.push(Action::SkipCombat);
        },
        TurnPhase::EndTurn => {
            // A figure that ends its turn at the entrance with a jewel may still deposit it.
            let fig = state.active_figure as usize;
            if state.figure_carries[fig].is_some() && state.figure_pos[fig] == ENTRANCE {
                buf.push(Action::DepositJewel);
            }
            buf.push(Action::EndTurn);
        },
    }
}

/// The legal actions for the current state, in a new vector.
pub fn legal_actions(state: &GameState) -> (v: Vec<Action>)
    requires
        legal_readable(*state),
    ensures
        v@ == spec_legal_actions(*state),
{
    let mut buf = Vec::with_capacity(8);
    legal_actions_into(state, &mut buf);
    buf
}

/// Nodes the search may leave: all but Spuk rooms when the active figure
/// carries a jewel (Spuk trap).
pub open spec fn bfs_expand(s: GameState) -> Seq<bool> {
    Seq::new(NODE_COUNT as nat, |n: int| !(carrying(s) && s.node_states@[n].has_spuk))
}

/// Every node may be entered.
pub open spec fn every_node() -> Seq<bool> {
    Seq::new(NODE_COUNT as nat, |n: int| true)
}

/// Which edges are open.
pub open spec fn open_map(s: GameState) -> Seq<bool> {
    Seq::new(EDGE_COUNT as nat, |e: int| !s.edge_states@[e].closed)
}

/// A hallway cell with any figure on it: it may be passed through but is no goal.
pub open spec fn occupied_hallway(s: GameState, n: int) -> bool {
    is_hallway_node(n) && popcount(node_at(s, n).figures) > 0
}

/// The goal predicate holds of node `n`.
pub open spec fn goal_holds<F: Fn(NodeId) -> bool>(goal: F, n: int) -> bool {
    call_ensures(goal, (n as u8,), true)
}

/// The nodes the search may stop at: goal nodes other than the start that are
/// not occupied hallway cells.
pub open spec fn bfs_goals<F: Fn(NodeId) -> bool>(s: GameState, goal: F, start: int) -> Seq<bool> {
    Seq::new(NODE_COUNT as nat, |n: int| n != start && !occupied_hallway(s, n) && goal_holds(goal, n))
}

/// BFS distance from `start` to the nearest node satisfying `goal`; `None` if
/// unreachable. Respects closed edges, the hallway pass-through rule (occupied
/// hallway cells are traversed but never a goal) and the Spuk trap.
pub fn bfs_distance<F>(state: &GameState, start: NodeId, goal: F) -> (r: Option<u32>) where
    F: Fn(NodeId) -> bool,

    requires
        state.active_figure < MAX_FIGURES,
        start < NODE_COUNT,
        forall|n: u8| call_requires(goal, (n,)),
        forall|n: u8, a: bool, b: bool| call_ensures(goal, (n,), a) && call_ensures(goal, (n,), b) ==> a == b,
    ensures
        r == Some(0u32) <==> goal_holds(goal, start as int),
        r matches Some(d) ==> (d > 0 ==> goal_within(
            bfs_expand(*state),
            every_node(),
            open_map(*state),
            bfs_goals(*state, goal, start as int),
            start as int,
            d as nat,
        ) && forall|j: nat|
            j < d ==> !#[trigger] goal_within(
                bfs_expand(*state),
                every_node(),
                open_map(*state),
                bfs_goals(*state, goal, start as int),
                start as int,
                j,
            )),
        r is None ==> forall|k: nat|
            !#[trigger] goal_within(
                bfs_expand(*state),
                every_node(),
                open_map(*state),
                bfs_goals(*state, goal, start as int),
                start as int,
                k,
            ),
{
    if goal(start) {
        return Some(0);
    }
    let carries = state.figure_carries[state.active_figure as usize].is_some();
    let mut expand = [true; NODE_COUNT];
    let enter = [true; NODE_COUNT];
    let mut goals = [false; NODE_COUNT];
    let mut n: usize = 0;
    while n < NODE_COUNT
        invariant
            n <= NODE_COUNT,
            start < NODE_COUNT,
            !goal_holds(goal, start as int),
            carries == carrying(*state),
            forall|k: u8| call_requires(goal, (k,)),
            forall|k: u8, a: bool, b: bool| call_ensures(goal, (k,), a) && call_ensures(goal, (k,), b) ==> a == b,
            forall|k: int| 0 <= k < n ==> #[trigger] expand@[k] == bfs_expand(*state)[k],
            forall|k: int| 0 <= k < n ==> #[trigger] goals@[k] == bfs_goals(*state, goal, start as int)[k],
        decreases NODE_COUNT - n,
    {
        expand[n] = !(carries && state.node_states[n].has_spuk);
        // An occupied hallway cell can be traversed but not used as a goal.
        let occupied = matches!(node_kind(n as u8), NodeKind::Hallway)
            && state.node_states[n].figure_count() > 0;
        if n != start as usize && !occupied {
            let g = goal(n as u8);
            goals[n] = g;
        } else {
            goals[n] = false;
        }
        n = n + 1;
    }
    let mut open = [false; EDGE_COUNT];
    let mut e: usize = 0;
    while e < EDGE_COUNT
        invariant
            e <= EDGE_COUNT,
            forall|k: int| 0 <= k < e ==> #[trigger] open@[k] == open_map(*state)[k],
        decreases EDGE_COUNT - e,
    {
        open[e] = !state.edge_states[e].closed;
        e = e + 1;
    }
    proof {
        assert(expand@ =~= bfs_expand(*state));
        assert(enter@ =~= every_node());
        assert(open@ =~= open_map(*state));
        assert(goals@ =~= bfs_goals(*state, goal, start as int));
    }
    layered_search(start, &expand, &enter, &open, &goals)
}

} // verus!
