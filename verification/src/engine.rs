//! The game engine: the state invariant, and the rules of each action as pure
//! transitions together with their executable forms.
use vstd::prelude::*;
use vstd::array::spec_array_update;

use crate::action::{Action, SymbolFace};
use crate::board::{
    is_room_node, lemma_edge_ends, room_at, room_index, room_node, spec_other_end, DoorColor, EdgeId,
    RoomLabel, EDGE_COUNT, ENTRANCE, NODE_COUNT,
};
use crate::rules::{
    active_pos, carrying, indices_ok, node_at, spec_is_loss, spec_is_win, spec_legal_actions,
};
use crate::state::{
    has_bit, popcount, FigureId, GameState, GhostCard, JewelId, NodeState, TurnPhase,
    GHOST_DECK_CAPACITY, JEWEL_COUNT, MAX_FIGURES, MAX_SPUK,
};

verus! {

#[derive(Debug, Clone, Copy, PartialEq, Eq, Structural)]
pub enum StepResult {
    /// The game continues; the phase has advanced.
    Continue,
    /// All 8 jewels deposited and all figures at the entrance.
    Win,
    /// The 6th Spuk was placed, or every figure is trapped.
    Loss,
    /// The submitted action was not legal in the current state; nothing changed.
    IllegalAction,
}

#[derive(Debug, Clone, Copy, PartialEq, Eq, Structural)]
pub struct GameResult {
    pub won: bool,
    pub turns_taken: u32,
    pub spuk_placed: u8,
    pub jewels_deposited: u8,
}

/// Records what a ghost card resolution did (for logging).
#[derive(Debug, Clone, Copy)]
pub enum GhostCardEvent {
    GhostPlaced { room: RoomLabel },
    SpukPlaced { room: RoomLabel },
    Reshuffled,
    /// Extra draws were triggered (Zieh 2 / Zieh 3); `extra` more cards are queued.
    DrawMultiple { extra: u8 },
    BlueDoorsClosed,
    GreenDoorsClosed,
}

/// The chance outcomes one step may consume: the number die, the two symbol
/// dice, and the card order after a shuffle of an empty deck and after a
/// Reshuffle card.
#[derive(Debug, Clone, Copy)]
pub struct Draws {
    pub number: u8,
    pub die_a: SymbolFace,
    pub die_b: SymbolFace,
    pub shuffled: [GhostCard; GHOST_DECK_CAPACITY],
    pub reshuffled: [GhostCard; GHOST_DECK_CAPACITY],
}

// ---------------------------------------------------------------------------
// Counting
// ---------------------------------------------------------------------------

/// The number of Spuk among the first `k` nodes.
pub open spec fn spuk_total(nodes: Seq<NodeState>, k: nat) -> nat
    decreases k,
{
    if k == 0 {
        0
    } else {
        spuk_total(nodes, (k - 1) as nat) + if nodes[k - 1].has_spuk {
            1nat
        } else {
            0nat
        }
    }
}

/// The number of deposited jewels among the first `k`.
pub open spec fn deposited_total(d: Seq<bool>, k: nat) -> nat
    decreases k,
{
    if k == 0 {
        0
    } else {
        deposited_total(d, (k - 1) as nat) + if d[k - 1] {
            1nat
        } else {
            0nat
        }
    }
}

/// Replacing one node changes the Spuk count by the change at that node.
pub proof fn lemma_spuk_total_update(nodes: Seq<NodeState>, n: int, ns: NodeState, k: nat)
    requires
        0 <= n < nodes.len(),
        k <= nodes.len(),
    ensures
        spuk_total(nodes.update(n, ns), k) + (if n < k && nodes[n].has_spuk { 1int } else { 0int })
            == spuk_total(nodes, k) + (if n < k && ns.has_spuk { 1int } else { 0int }),
    decreases k,
{
    if k > 0 {
        lemma_spuk_total_update(nodes, n, ns, (k - 1) as nat);
    }
}

/// The Spuk count is at most the number of nodes counted, and at least one
/// when a counted node holds a Spuk.
pub proof fn lemma_spuk_total_bounds(nodes: Seq<NodeState>, k: nat)
    ensures
        spuk_total(nodes, k) <= k,
        forall|n: int| 0 <= n < k && #[trigger] nodes[n].has_spuk ==> spuk_total(nodes, k) >= 1,
    decreases k,
{
    if k > 0 {
        lemma_spuk_total_bounds(nodes, (k - 1) as nat);
    }
}

/// Setting one entry changes the deposited count by the change at that entry.
pub proof fn lemma_deposited_total_update(d: Seq<bool>, j: int, b: bool, k: nat)
    requires
        0 <= j < d.len(),
        k <= d.len(),
    ensures
        deposited_total(d.update(j, b), k) + (if j < k && d[j] { 1int } else { 0int }) == deposited_total(d, k) + (
        if j < k && b {
            1int
        } else {
            0int
        }),
    decreases k,
{
    if k > 0 {
        lemma_deposited_total_update(d, j, b, (k - 1) as nat);
    }
}

pub proof fn lemma_deposited_total_bound(d: Seq<bool>, k: nat)
    ensures
        deposited_total(d, k) <= k,
    decreases k,
{
    if k > 0 {
        lemma_deposited_total_bound(d, (k - 1) as nat);
    }
}

// ---------------------------------------------------------------------------
// Invariant
// ---------------------------------------------------------------------------

/// Each jewel is in at most one place: a room, a figure's hands, or the
/// entrance (deposited); jewel ids are below 8.
pub open spec fn jewels_ok(s: GameState) -> bool {
    &&& forall|n: int|
        0 <= n < NODE_COUNT ==> ((#[trigger] s.node_states@[n]).jewel matches Some(j) ==> {
            &&& j < JEWEL_COUNT
            &&& !s.jewel_deposited@[j as int]
            &&& forall|f: int| 0 <= f < MAX_FIGURES ==> #[trigger] s.figure_carries@[f] != Some(j)
            &&& forall|m: int| 0 <= m < NODE_COUNT && m != n ==> (#[trigger] s.node_states@[m]).jewel != Some(j)
        })
    &&& forall|f: int|
        0 <= f < MAX_FIGURES ==> ((#[trigger] s.figure_carries@[f]) matches Some(j) ==> {
            &&& j < JEWEL_COUNT
            &&& !s.jewel_deposited@[j as int]
            &&& forall|g: int| 0 <= g < MAX_FIGURES && g != f ==> #[trigger] s.figure_carries@[g] != Some(j)
        })
}

/// Node bitmasks agree with figure positions: bit `i` of node `n` is set
/// exactly when `i` is an active figure standing on `n`.
pub open spec fn figures_ok(s: GameState) -> bool {
    &&& forall|i: int| 0 <= i < MAX_FIGURES ==> (#[trigger] s.figure_pos@[i]) < NODE_COUNT
    &&& forall|n: int, i: int|
        0 <= n < NODE_COUNT && 0 <= i < 8 ==> #[trigger] has_bit(s.node_states@[n].figures, i) == (i
            < s.figure_count && s.figure_pos@[i] == n)
}

/// Node states are sound: fewer than 3 ghosts anywhere, Spuk only in rooms,
/// and the Spuk counter equals the number of Spuk on the board.
pub open spec fn nodes_ok(s: GameState) -> bool {
    &&& forall|n: int| 0 <= n < NODE_COUNT ==> (#[trigger] s.node_states@[n]).ghosts < 3
    &&& forall|n: int| 0 <= n < NODE_COUNT && (#[trigger] s.node_states@[n]).has_spuk ==> is_room_node(n)
    &&& s.spuk_count == spuk_total(s.node_states@, NODE_COUNT as nat)
}

/// The phase-specific counters are sound: drawing and moving have at least one
/// move ahead, and a running game in the draw phase has a card to draw.
pub open spec fn phase_ok(s: GameState) -> bool {
    &&& (s.phase matches TurnPhase::DrawGhostCard { cards_remaining } ==> s.moves_remaining >= 1 && (
    !s.game_over ==> cards_remaining >= 1))
    &&& (s.phase is Move ==> s.moves_remaining >= 1)
}

/// Everything of the invariant but the phase counters.
pub open spec fn core_ok(s: GameState) -> bool {
    &&& s.figure_count == 3 || s.figure_count == 4
    &&& s.active_figure < s.figure_count
    &&& figures_ok(s)
    &&& nodes_ok(s)
    &&& jewels_ok(s)
    &&& s.next_required_jewel <= 1 + deposited_total(s.jewel_deposited@, JEWEL_COUNT as nat)
    &&& s.deck.size <= GHOST_DECK_CAPACITY
}

impl GameState {
    /// The state invariant the engine keeps.
    pub open spec fn wf(&self) -> bool {
        core_ok(*self) && phase_ok(*self)
    }
}

// ---------------------------------------------------------------------------
// Transitions
// ---------------------------------------------------------------------------

/// `s` with node `n` replaced.
pub open spec fn set_node(s: GameState, n: int, ns: NodeState) -> GameState {
    GameState { node_states: spec_array_update(s.node_states, n, ns), ..s }
}

/// After rolling the number die: a roll below 6 means drawing a ghost card first.
pub open spec fn spec_after_roll(s: GameState, roll: u8) -> GameState {
    GameState {
        die_roll: roll,
        moves_remaining: roll,
        phase: if roll < 6 {
            TurnPhase::DrawGhostCard { cards_remaining: 1 }
        } else {
            TurnPhase::Move
        },
        ..s
    }
}

/// Leaving the Move phase: in a room, or at the entrance with a jewel, the
/// figure may pick up or deposit; otherwise its turn ends.
pub open spec fn spec_advance_from_move(s: GameState) -> GameState {
    let pos = active_pos(s);
    GameState {
        phase: if is_room_node(pos) || (pos == ENTRANCE && carrying(s)) {
            TurnPhase::PickupJewel
        } else {
            TurnPhase::EndTurn
        },
        ..s
    }
}

/// Numbered-jewel variant: entering a room reveals the number of its jewel the first time.
pub open spec fn spec_reveal(s: GameState, dest: int) -> GameState {
    match node_at(s, dest).jewel {
        Some(j) => if s.variant.numbered_jewels && s.jewel_number@[j as int] == 0 {
            GameState {
                jewel_number: spec_array_update(s.jewel_number, j as int, node_at(s, dest).jewel_number),
                ..s
            }
        } else {
            s
        },
        None => s,
    }
}

/// The active figure leaves its node for the other end of edge `e`, spending one move.
pub open spec fn spec_shift(s: GameState, e: EdgeId) -> GameState {
    let f = s.active_figure;
    let from = active_pos(s);
    let dest = spec_other_end(e, from);
    let n_from = NodeState { figures: node_at(s, from).figures & !(1u8 << f), ..node_at(s, from) };
    let s1 = set_node(s, from, n_from);
    let n_dest = NodeState { figures: node_at(s1, dest).figures | (1u8 << f), ..node_at(s1, dest) };
    GameState {
        figure_pos: spec_array_update(s1.figure_pos, f as int, dest as u8),
        moves_remaining: (s1.moves_remaining - 1) as u8,
        ..set_node(s1, dest, n_dest)
    }
}

/// Moving the active figure along edge `e`: it leaves its node, enters the
/// other end, spends one move, reveals a jewel number there, and leaves the
/// Move phase when no move is left.
pub open spec fn spec_move(s: GameState, e: EdgeId) -> GameState {
    let s3 = spec_reveal(spec_shift(s, e), spec_other_end(e, active_pos(s)));
    if s3.moves_remaining == 0 {
        spec_advance_from_move(s3)
    } else {
        s3
    }
}

/// Depositing: the carried jewel, if any, is marked deposited; in the
/// numbered-jewel variant the next required number advances.
pub open spec fn spec_deposit(s: GameState) -> GameState {
    let f = s.active_figure as int;
    match s.figure_carries@[f] {
        Some(j) => GameState {
            figure_carries: spec_array_update(s.figure_carries, f, None),
            jewel_deposited: spec_array_update(s.jewel_deposited, j as int, true),
            next_required_jewel: if s.variant.numbered_jewels {
                (s.next_required_jewel + 1) as u8
            } else {
                s.next_required_jewel
            },
            ..s
        },
        None => s,
    }
}

/// Picking up jewel `j`: it leaves the room and goes into the active figure's hands.
pub open spec fn spec_pickup(s: GameState, j: JewelId) -> GameState {
    let f = s.active_figure as int;
    let pos = active_pos(s);
    GameState {
        figure_carries: spec_array_update(s.figure_carries, f, Some(j)),
        ..set_node(s, pos, NodeState { jewel: None, ..node_at(s, pos) })
    }
}

/// Fighting with symbol dice `a` and `b` (`b` only counts with two or more
/// figures in the room): with company, a Spuk face removes the Spuk, else a
/// ghost face removes one ghost; alone, only die `a` counts and only against ghosts.
pub open spec fn spec_fight(s: GameState, a: SymbolFace, b: SymbolFace) -> GameState {
    let pos = active_pos(s);
    let ns = node_at(s, pos);
    if popcount(ns.figures) >= 2 {
        if (a == SymbolFace::Spuk || b == SymbolFace::Spuk) && ns.has_spuk {
            GameState {
                spuk_count: (s.spuk_count - 1) as u8,
                ..set_node(s, pos, NodeState { has_spuk: false, ..ns })
            }
        } else if (a == SymbolFace::GhostFace || b == SymbolFace::GhostFace) && ns.ghosts > 0 {
            set_node(s, pos, NodeState { ghosts: (ns.ghosts - 1) as u8, ..ns })
        } else {
            s
        }
    } else if a == SymbolFace::GhostFace && ns.ghosts > 0 {
        set_node(s, pos, NodeState { ghosts: (ns.ghosts - 1) as u8, ..ns })
    } else {
        s
    }
}

/// Ending a turn: the next figure rolls.
pub open spec fn spec_advance_turn(s: GameState) -> GameState {
    GameState {
        active_figure: ((s.active_figure + 1) % (s.figure_count as int)) as u8,
        phase: TurnPhase::RollDie,
        die_roll: 0,
        moves_remaining: 0,
        ..s
    }
}

// ---------------------------------------------------------------------------
// Executable transitions
// ---------------------------------------------------------------------------

/// Applies a number-die roll.
pub(crate) fn after_roll(state: &mut GameState, roll: u8)
    ensures
        *final(state) == spec_after_roll(*old(state), roll),
{
    state.die_roll = roll;
    state.moves_remaining = roll;
    if roll < 6 {
        state.phase = TurnPhase::DrawGhostCard { cards_remaining: 1 };
    } else {
        state.phase = TurnPhase::Move;
    }
}

/// Transition out of the Move phase once the figure has used all moves or chose to stop.
pub(crate) fn advance_from_move(state: &mut GameState)
    requires
        indices_ok(*old(state)),
    ensures
        *final(state) == spec_advance_from_move(*old(state)),
{
    let fig = state.active_figure as usize;
    let pos = state.figure_pos[fig];
    let in_room = 24 <= pos && pos <= 35;
    if in_room || (pos == ENTRANCE && state.figure_carries[fig].is_some()) {
        state.phase = TurnPhase::PickupJewel;
    } else {
        state.phase = TurnPhase::EndTurn;
    }
}

/// The active figure steps along `edge` and spends one move.
fn shift_figure(state: &mut GameState, edge: EdgeId) -> (dest: u8)
    requires
        indices_ok(*old(state)),
        edge < EDGE_COUNT,
        old(state).moves_remaining >= 1,
    ensures
        *final(state) == spec_shift(*old(state), edge),
        dest == spec_other_end(edge, active_pos(*old(state))),
        dest < NODE_COUNT,
{
    let fig = state.active_figure;
    let from = state.figure_pos[fig as usize];
    let dest = crate::rules::other_end(edge, from);
    proof {
        lemma_edge_ends(edge);
    }
    let ghost s0 = *state;
    let mut nf = state.node_states[from as usize];
    nf.remove_figure(fig);
    state.node_states[from as usize] = nf;
    let mut nd = state.node_states[dest as usize];
    nd.add_figure(fig);
    state.node_states[dest as usize] = nd;
    state.figure_pos[fig as usize] = dest;
    state.moves_remaining = state.moves_remaining - 1;
    proof {
        let s1 = set_node(s0, from as int, nf);
        assert(nd == NodeState { figures: node_at(s1, dest as int).figures | (1u8 << fig), ..node_at(s1, dest as int) });
        assert(state.node_states =~= set_node(s1, dest as int, nd).node_states);
        assert(state.figure_pos =~= spec_array_update(s1.figure_pos, fig as int, dest));
    }
    dest
}

/// Numbered-jewel variant: reveals the number of the jewel in `dest` the first time.
fn reveal_jewel_number(state: &mut GameState, dest: u8)
    requires
        indices_ok(*old(state)),
        dest < NODE_COUNT,
    ensures
        *final(state) == spec_reveal(*old(state), dest as int),
{
    if state.variant.numbered_jewels {
        if let Some(jewel_id) = state.node_states[dest as usize].jewel {
            if state.jewel_number[jewel_id as usize] == 0 {
                state.jewel_number[jewel_id as usize] = state.node_states[dest as usize].jewel_number;
            }
        }
    }
}

/// Moves the active figure along `edge` (the Move phase).
pub(crate) fn move_figure(state: &mut GameState, edge: EdgeId) -> (r: StepResult)
    requires
        indices_ok(*old(state)),
        edge < EDGE_COUNT,
        old(state).moves_remaining >= 1,
    ensures
        *final(state) == spec_move(*old(state), edge),
        r == StepResult::Continue,
{
    let dest = shift_figure(state, edge);
    proof {
        assert(indices_ok(*state));
    }
    reveal_jewel_number(state, dest);
    if state.moves_remaining == 0 {
        advance_from_move(state);
    }
    StepResult::Continue
}

/// Puts jewel `jewel_id` from the active figure's room into its hands.
pub(crate) fn pickup_jewel(state: &mut GameState, jewel_id: JewelId)
    requires
        indices_ok(*old(state)),
    ensures
        *final(state) == spec_pickup(*old(state), jewel_id),
{
    let fig = state.active_figure as usize;
    let pos = state.figure_pos[fig];
    let mut ns = state.node_states[pos as usize];
    ns.jewel = None;
    state.node_states[pos as usize] = ns;
    state.figure_carries[fig] = Some(jewel_id);
}

/// Deposits the active figure's jewel, if it carries one.
pub(crate) fn deposit_jewel(state: &mut GameState)
    requires
        old(state).wf(),
    ensures
        *final(state) == spec_deposit(*old(state)),
{
    let fig = state.active_figure as usize;
    if let Some(jewel_id) = state.figure_carries[fig] {
        proof {
            lemma_deposited_total_bound(state.jewel_deposited@, JEWEL_COUNT as nat);
        }
        state.figure_carries[fig] = None;
        state.jewel_deposited[jewel_id as usize] = true;
        // Numbered-jewel variant: the next number is required now.
        if state.variant.numbered_jewels {
            state.next_required_jewel = state.next_required_jewel + 1;
        }
    }
}

/// Resolves a fight in the active figure's node with symbol dice `die_a` and `die_b`.
pub(crate) fn fight(state: &mut GameState, die_a: SymbolFace, die_b: SymbolFace)
    requires
        old(state).wf(),
    ensures
        *final(state) == spec_fight(*old(state), die_a, die_b),
{
    let fig = state.active_figure;
    let pos = state.figure_pos[fig as usize] as usize;
    let ns = state.node_states[pos];
    let figures_here = ns.figure_count();
    proof {
        lemma_spuk_total_bounds(state.node_states@, NODE_COUNT as nat);
    }
    if figures_here >= 2 {
        // With company: a Spuk face on either die removes the Spuk.
        if (die_a == SymbolFace::Spuk || die_b == SymbolFace::Spuk) && ns.has_spuk {
            let mut n2 = ns;
            n2.has_spuk = false;
            state.node_states[pos] = n2;
            state.spuk_count = state.spuk_count - 1;
            return ;
        }
        // A ghost face on either die removes one ghost.
        if (die_a == SymbolFace::GhostFace || die_b == SymbolFace::GhostFace) && ns.ghosts > 0 {
            let mut n2 = ns;
            n2.ghosts = ns.ghosts - 1;
            state.node_states[pos] = n2;
        }
    } else {
        // Alone: only a ghost face removes a ghost; a Spuk cannot be fought alone.
        if die_a == SymbolFace::GhostFace && ns.ghosts > 0 {
            let mut n2 = ns;
            n2.ghosts = ns.ghosts - 1;
            state.node_states[pos] = n2;
        }
    }
}

/// Passes the turn to the next figure.
pub(crate) fn advance_turn(state: &mut GameState)
    requires
        old(state).active_figure < old(state).figure_count,
    ensures
        *final(state) == spec_advance_turn(*old(state)),
{
    state.active_figure = (state.active_figure + 1) % state.figure_count;
    state.phase = TurnPhase::RollDie;
    state.die_roll = 0;
    state.moves_remaining = 0;
}

// ---------------------------------------------------------------------------
// Ghost cards
// ---------------------------------------------------------------------------

/// Returns the next room label in alphabetical order, wrapping L → A.
pub fn next_room(room: RoomLabel) -> (r: RoomLabel)
    ensures
        room_index(r) == (room_index(room) + 1) % 12,
        r == room_at((room_index(room) + 1) % 12),
        r == rooms_after(room, 1),
{
    proof {
        reveal_with_fuel(rooms_after, 2);
    }
    match room {
        RoomLabel::A => RoomLabel::B,
        RoomLabel::B => RoomLabel::C,
        RoomLabel::C => RoomLabel::D,
        RoomLabel::D => RoomLabel::E,
        RoomLabel::E => RoomLabel::F,
        RoomLabel::F => RoomLabel::G,
        RoomLabel::G => RoomLabel::H,
        RoomLabel::H => RoomLabel::I,
        RoomLabel::I => RoomLabel::J,
        RoomLabel::J => RoomLabel::K,
        RoomLabel::K => RoomLabel::L,
        RoomLabel::L => RoomLabel::A,
    }
}

/// The room reached from `r` by going `k` times to the next room.
pub open spec fn rooms_after(r: RoomLabel, k: nat) -> RoomLabel
    decreases k,
{
    if k == 0 {
        r
    } else {
        room_at((room_index(rooms_after(r, (k - 1) as nat)) + 1) % 12)
    }
}

/// Going to the next room `k` times moves `k` places round the alphabet
/// (L is followed by A), so that twelve steps lead back to the start.
pub proof fn lemma_rooms_after(r: RoomLabel, k: nat)
    ensures
        room_index(rooms_after(r, k)) == (room_index(r) + k) % 12,
        k % 12 == 0 ==> rooms_after(r, k) == r,
    decreases k,
{
    if k > 0 {
        lemma_rooms_after(r, (k - 1) as nat);
        let j = (room_index(rooms_after(r, (k - 1) as nat)) + 1) % 12;
        assert(room_index(room_at(j)) == j);
        assert((((room_index(r) + k - 1) % 12) + 1) % 12 == (room_index(r) + k) % 12);
    }
    if k % 12 == 0 {
        assert((room_index(r) + k) % 12 == room_index(r));
        let q = rooms_after(r, k);
        assert(room_index(q) == room_index(r));
        assert(q == r);
    }
}

/// The room at position `(start + k) % 12` in alphabetical order.
pub open spec fn room_after(start: int, k: int) -> int {
    (start + k) % 12
}

/// Looking at the rooms `start + k, start + k + 1, ...` (cyclically, up to the
/// twelfth), the position of the first one without a Spuk.
pub open spec fn free_room_from(s: GameState, start: int, k: int) -> Option<int>
    decreases 12 - k,
{
    if k >= 12 || k < 0 {
        None
    } else if !node_at(s, 24 + room_after(start, k)).has_spuk {
        Some(room_after(start, k))
    } else {
        free_room_from(s, start, k + 1)
    }
}

/// Placing a ghost for a card naming `room`: it goes to the first room from
/// `room` on, alphabetically and wrapping L → A, without a Spuk. A third ghost
/// there turns into a Spuk. The flag tells whether six or more Spuk are now on
/// the board (or, when every room already holds a Spuk, were already).
pub open spec fn spec_place_ghost(s: GameState, room: RoomLabel) -> (GameState, bool) {
    match free_room_from(s, room_index(room), 0) {
        None => (s, s.spuk_count >= MAX_SPUK),
        Some(r) => {
            let n = 24 + r;
            let ns = node_at(s, n);
            if ns.ghosts + 1 >= 3 {
                let s1 = GameState {
                    spuk_count: (s.spuk_count + 1) as u8,
                    ..set_node(s, n, NodeState { ghosts: 0, has_spuk: true, ..ns })
                };
                (s1, s1.spuk_count >= MAX_SPUK)
            } else {
                (set_node(s, n, NodeState { ghosts: (ns.ghosts + 1) as u8, ..ns }), false)
            }
        },
    }
}

/// Places one ghost for a card naming `room` (see `spec_place_ghost`).
/// Returns `true` if six or more Spuk are on the board afterwards.
#[verifier::spinoff_prover]
#[verifier::rlimit(40)]
pub(crate) fn place_ghost_in(state: &mut GameState, room: RoomLabel) -> (over: bool)
    requires
        forall|n: int| 24 <= n < NODE_COUNT ==> (#[trigger] old(state).node_states@[n]).ghosts < 255,
        old(state).spuk_count < 255,
    ensures
        (*final(state), over) == spec_place_ghost(*old(state), room),
{
    // A room holding a Spuk passes the ghost on to the next room alphabetically.
    let ghost start = room_index(room);
    let mut target = room;
    let ghost mut k: int = 0;
    let mut searching = state.node_states[room_node(target) as usize].has_spuk;
    while searching
        invariant
            0 <= k < 12,
            room_index(target) == room_after(start, k),
            target == room_at(room_after(start, k)),
            start == room_index(room),
            0 <= start < 12,
            searching == node_at(*state, 24 + room_after(start, k)).has_spuk,
            free_room_from(*state, start, 0) == free_room_from(*state, start, k),
        decreases 12 - k,
    {
        target = next_room(target);
        proof {
            k = k + 1;
        }
        if target == room {
            // Every room holds a Spuk: the game is already lost.
            proof {
                assert(k == 12) by {
                    assert(room_after(start, k) == start);
                }
            }
            return state.spuk_count >= MAX_SPUK;
        }
        proof {
            assert(k < 12) by {
                if k == 12 {
                    assert(room_after(start, 12) == start);
                }
            }
        }
        searching = state.node_states[room_node(target) as usize].has_spuk;
    }
    let node = room_node(target) as usize;
    let mut ns = state.node_states[node];
    ns.ghosts = ns.ghosts + 1;
    if ns.ghosts >= 3 {
        ns.ghosts = 0;
        ns.has_spuk = true;
        state.node_states[node] = ns;
        state.spuk_count = state.spuk_count + 1;
        return state.spuk_count >= MAX_SPUK;
    }
    state.node_states[node] = ns;
    false
}

/// One queued card has been drawn.
pub open spec fn spec_decrement(s: GameState) -> GameState {
    match s.phase {
        TurnPhase::DrawGhostCard { cards_remaining } => if cards_remaining > 0 {
            GameState { phase: TurnPhase::DrawGhostCard { cards_remaining: (cards_remaining - 1) as u8 }, ..s }
        } else {
            s
        },
        _ => s,
    }
}

/// A Zieh card replaces its own draw by `extra` more draws (saturating at 255).
pub open spec fn spec_bump(s: GameState, extra: u8) -> GameState {
    match s.phase {
        TurnPhase::DrawGhostCard { cards_remaining } => GameState {
            phase: TurnPhase::DrawGhostCard {
                cards_remaining: if cards_remaining - 1 + extra > 255 {
                    255u8
                } else {
                    (cards_remaining - 1 + extra) as u8
                },
            },
            ..s
        },
        _ => s,
    }
}

fn decrement_ghost_cards_remaining(state: &mut GameState)
    ensures
        *final(state) == spec_decrement(*old(state)),
{
    if let TurnPhase::DrawGhostCard { cards_remaining } = state.phase {
        if cards_remaining > 0 {
            state.phase = TurnPhase::DrawGhostCard { cards_remaining: cards_remaining - 1 };
        }
    }
}

fn bump_cards_remaining(state: &mut GameState, extra: u8)
    requires
        old(state).phase matches TurnPhase::DrawGhostCard { cards_remaining } ==> cards_remaining >= 1,
    ensures
        *final(state) == spec_bump(*old(state), extra),
{
    if let TurnPhase::DrawGhostCard { cards_remaining } = state.phase {
        // The card itself was the trigger: replace its draw by `extra` draws.
        state.phase = TurnPhase::DrawGhostCard { cards_remaining: (cards_remaining - 1).saturating_add(extra) };
    }
}

/// `edges` with every edge in `es` closed.
pub open spec fn close_all(edges: [crate::state::EdgeState; EDGE_COUNT], es: Seq<EdgeId>) -> [crate::state::EdgeState; EDGE_COUNT]
    decreases es.len(),
{
    if es.len() == 0 {
        edges
    } else {
        spec_array_update(close_all(edges, es.drop_last()), es.last() as int, crate::state::EdgeState { closed: true })
    }
}

/// All doors of color `c` are blocked.
pub open spec fn spec_close_color(s: GameState, c: DoorColor) -> GameState {
    GameState { edge_states: close_all(s.edge_states, crate::board::edges_of_color(c)), ..s }
}

/// Blocks every door of color `color`.
pub(crate) fn close_doors(state: &mut GameState, color: DoorColor)
    ensures
        *final(state) == spec_close_color(*old(state), color),
        forall|e: int|
            0 <= e < EDGE_COUNT ==> (#[trigger] final(state).edge_states@[e]).closed == (old(state).edge_states@[e].closed
                || crate::board::spec_edge(e as u8).color == color),
{
    let es = crate::board::collect_edges_by_color(color);
    proof {
        crate::board::lemma_colored_upto(color, EDGE_COUNT as nat);
    }
    let ghost old_edges = state.edge_states;
    let mut i: usize = 0;
    while i < es.len()
        invariant
            i <= es.len(),
            es@ == crate::board::edges_of_color(color),
            forall|k: int| 0 <= k < es@.len() ==> (#[trigger] es@[k]) < EDGE_COUNT,
            state.edge_states == close_all(old_edges, es@.take(i as int)),
            *state == (GameState { edge_states: state.edge_states, ..*old(state) }),
        decreases es.len() - i,
    {
        let e = es[i];
        state.edge_states[e as usize] = crate::state::EdgeState { closed: true };
        proof {
            assert(es@.take(i + 1).drop_last() =~= es@.take(i as int));
            assert(state.edge_states =~= close_all(old_edges, es@.take(i + 1)));
        }
        i = i + 1;
    }
    proof {
        assert(es@.take(es@.len() as int) =~= es@);
        lemma_close_all(old_edges, es@);
        assert forall|e: int| 0 <= e < EDGE_COUNT implies (#[trigger] state.edge_states@[e]).closed == (old_edges@[e].closed
            || crate::board::spec_edge(e as u8).color == color) by {
            if crate::board::spec_edge(e as u8).color == color {
                assert(es@.contains(e as u8));
            }
        }
    }
}

/// An edge is closed after `close_all` when it was closed or is listed.
pub proof fn lemma_close_all(edges: [crate::state::EdgeState; EDGE_COUNT], es: Seq<EdgeId>)
    requires
        forall|k: int| 0 <= k < es.len() ==> (#[trigger] es[k]) < EDGE_COUNT,
    ensures
        forall|e: int|
            0 <= e < EDGE_COUNT ==> (#[trigger] close_all(edges, es)@[e]).closed == (edges@[e].closed || es.contains(
                e as u8,
            )),
    decreases es.len(),
{
    if es.len() > 0 {
        lemma_close_all(edges, es.drop_last());
        assert forall|e: int| 0 <= e < EDGE_COUNT implies (#[trigger] close_all(edges, es)@[e]).closed == (edges@[e].closed
            || es.contains(e as u8)) by {
            if es.drop_last().contains(e as u8) {
                let i = choose|i: int| 0 <= i < es.drop_last().len() && es.drop_last()[i] == e as u8;
                assert(es[i] == e as u8);
            }
            if es.contains(e as u8) && e as u8 != es.last() {
                let i = choose|i: int| 0 <= i < es.len() && es[i] == e as u8;
                assert(es.drop_last()[i] == e as u8);
            }
            if e == es.last() as int {
                assert(es[es.len() - 1] == es.last());
                assert(es.contains(e as u8));
            } else {
                assert(close_all(edges, es)@[e] == close_all(edges, es.drop_last())@[e]);
            }
        }
    }
}

// ---------------------------------------------------------------------------
// Resolving ghost cards
// ---------------------------------------------------------------------------

/// The deck to draw from: an empty deck is first reshuffled (into `shuffled`).
pub open spec fn spec_draw_deck(s: GameState, shuffled: [GhostCard; GHOST_DECK_CAPACITY]) -> crate::state::GhostDeck {
    if s.deck.top >= s.deck.size {
        crate::state::GhostDeck { cards: shuffled, top: 0, size: s.deck.size }
    } else {
        s.deck
    }
}

/// Drawing and resolving one ghost card. An empty deck is reshuffled first
/// (its cards then lie as in `shuffled`); a Reshuffle card reshuffles the deck
/// (its cards then lie as in `reshuffled`).
pub open spec fn spec_resolve_card(
    s: GameState,
    shuffled: [GhostCard; GHOST_DECK_CAPACITY],
    reshuffled: [GhostCard; GHOST_DECK_CAPACITY],
) -> GameState {
    let deck1 = spec_draw_deck(s, shuffled);
    if deck1.top >= deck1.size {
        GameState { deck: deck1, ..s }
    } else {
        let card = deck1.cards@[deck1.top as int];
        let s1 = GameState { deck: crate::state::GhostDeck { top: (deck1.top + 1) as u8, ..deck1 }, ..s };
        match card {
            GhostCard::Room(room) => {
                let placed = spec_place_ghost(s1, room);
                spec_decrement(
                    if placed.1 {
                        GameState { game_over: true, players_won: false, ..placed.0 }
                    } else {
                        placed.0
                    },
                )
            },
            GhostCard::Reshuffle => spec_decrement(
                GameState { deck: crate::state::GhostDeck { cards: reshuffled, top: 0, size: deck1.size }, ..s1 },
            ),
            GhostCard::DrawTwo => spec_bump(s1, 2),
            GhostCard::DrawThree => spec_bump(s1, 3),
            GhostCard::BlueDoors => spec_decrement(spec_close_color(s1, DoorColor::Blue)),
            GhostCard::GreenDoors => spec_decrement(spec_close_color(s1, DoorColor::Green)),
        }
    }
}

/// Draws the next ghost card and resolves it (see `spec_resolve_card`).
pub fn resolve_next_ghost_card(
    state: &mut GameState,
    shuffled: &[GhostCard; GHOST_DECK_CAPACITY],
    reshuffled: &[GhostCard; GHOST_DECK_CAPACITY],
)
    requires
        old(state).wf(),
        !old(state).game_over,
        old(state).phase is DrawGhostCard,
    ensures
        *final(state) == spec_resolve_card(*old(state), *shuffled, *reshuffled),
{
    proof {
        lemma_spuk_total_bounds(state.node_states@, NODE_COUNT as nat);
    }
    // Reshuffle if the deck is empty.
    if state.deck.is_empty() {
        state.deck.cards = *shuffled;
        state.deck.reset_cursor();
    }
    let card = match state.deck.draw() {
        Some(c) => c,
        None => {
            return ;
        },
    };
    match card {
        GhostCard::Room(room) => {
            let game_over = place_ghost_in(state, room);
            if game_over {
                state.game_over = true;
                state.players_won = false;
            }
            decrement_ghost_cards_remaining(state);
        },
        GhostCard::Reshuffle => {
            state.deck.cards = *reshuffled;
            state.deck.reset_cursor();
            decrement_ghost_cards_remaining(state);
        },
        GhostCard::DrawTwo => {
            // Queue 2 extra card draws.
            bump_cards_remaining(state, 2);
        },
        GhostCard::DrawThree => {
            bump_cards_remaining(state, 3);
        },
        GhostCard::BlueDoors => {
            close_doors(state, DoorColor::Blue);
            decrement_ghost_cards_remaining(state);
        },
        GhostCard::GreenDoors => {
            close_doors(state, DoorColor::Green);
            decrement_ghost_cards_remaining(state);
        },
    }
}

} // verus!
