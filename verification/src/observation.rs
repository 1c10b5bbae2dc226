//! What a player may see of the game: the state without its hidden parts.
use vstd::prelude::*;

use crate::action::Action;
use crate::board::{NodeId, EDGE_COUNT, NODE_COUNT};
use crate::board::RoomLabel;
use crate::state::{
    EdgeState, FigureId, GameState, GhostCard, GhostDeck, JewelId, NodeState, TurnPhase, GHOST_DECK_CAPACITY,
    JEWEL_COUNT, MAX_FIGURES,
};
use crate::variant::Variant;

verus! {

/// A player-visible snapshot of the game state.
/// It holds no hidden information: the deck order is hidden (only the number of
/// cards left is shown), and a jewel's number shows only once a figure has
/// entered its room (non-zero in `jewel_number`).
#[derive(Debug, Clone)]
pub struct PlayerView {
    pub figure_id: FigureId,
    pub figure_count: u8,
    pub active_figure: FigureId,
    pub phase: TurnPhase,
    pub die_roll: u8,
    pub figure_positions: [NodeId; MAX_FIGURES],
    pub figure_carries: [Option<JewelId>; MAX_FIGURES],
    /// Per-node state (same layout as in the game state), with the hidden
    /// jewel numbers shown as 0.
    pub node_states: [NodeState; NODE_COUNT],
    /// Per-edge closed flags.
    pub edge_closed: [bool; EDGE_COUNT],
    pub spuk_count: u8,
    pub jewel_deposited: [bool; JEWEL_COUNT],
    /// Jewel numbers: 0 = not yet revealed (or variant disabled).
    pub jewel_number: [u8; JEWEL_COUNT],
    pub next_required_jewel: u8,
    /// Number of cards remaining in the ghost deck (order is hidden).
    pub deck_size: u8,
    /// Legal actions available right now.
    pub legal_actions: Vec<Action>,
    pub variant: Variant,
}

/// Node state as a player sees it: the number hidden under the jewel reads 0.
pub open spec fn visible_node(ns: NodeState) -> NodeState {
    NodeState { jewel_number: 0, ..ns }
}

/// `v` shows state `s` to figure `figure_id`, with legal actions `legal`:
/// everything but the deck order and the hidden jewel numbers.
pub open spec fn shows(v: PlayerView, s: GameState, figure_id: FigureId, legal: Seq<Action>) -> bool {
    &&& v.figure_id == figure_id
    &&& v.figure_count == s.figure_count
    &&& v.active_figure == s.active_figure
    &&& v.phase == s.phase
    &&& v.die_roll == s.die_roll
    &&& v.figure_positions == s.figure_pos
    &&& v.figure_carries == s.figure_carries
    &&& forall|n: int| 0 <= n < NODE_COUNT ==> #[trigger] v.node_states@[n] == visible_node(s.node_states@[n])
    &&& forall|e: int| 0 <= e < EDGE_COUNT ==> #[trigger] v.edge_closed@[e] == s.edge_states@[e].closed
    &&& v.spuk_count == s.spuk_count
    &&& v.jewel_deposited == s.jewel_deposited
    &&& forall|j: int|
        0 <= j < JEWEL_COUNT ==> #[trigger] v.jewel_number@[j] == if s.variant.numbered_jewels {
            s.jewel_number@[j]
        } else {
            0u8
        }
    &&& v.next_required_jewel == s.next_required_jewel
    &&& v.deck_size == (if s.deck.top <= s.deck.size { s.deck.size - s.deck.top } else { 0 })
    &&& v.legal_actions@ == legal
    &&& v.variant == s.variant
}

impl PlayerView {
    /// The view of `state` for figure `figure_id`, offering the actions `legal`.
    pub fn from_state(state: &GameState, figure_id: FigureId, legal: &[Action]) -> (v: Self)
        ensures
            shows(v, *state, figure_id, legal@),
    {
        let mut edge_closed = [false; EDGE_COUNT];
        let mut i: usize = 0;
        while i < EDGE_COUNT
            invariant
                i <= EDGE_COUNT,
                forall|e: int| 0 <= e < i ==> #[trigger] edge_closed@[e] == state.edge_states@[e].closed,
            decreases EDGE_COUNT - i,
        {
            edge_closed[i] = state.edge_states[i].closed;
            i = i + 1;
        }
        // The numbers under the jewels stay hidden until the engine reveals them
        // into the state's `jewel_number` as figures enter the rooms.
        let mut node_states = state.node_states;
        let mut n: usize = 0;
        while n < NODE_COUNT
            invariant
                n <= NODE_COUNT,
                forall|m: int| 0 <= m < n ==> #[trigger] node_states@[m] == visible_node(state.node_states@[m]),
                forall|m: int| n <= m < NODE_COUNT ==> #[trigger] node_states@[m] == state.node_states@[m],
            decreases NODE_COUNT - n,
        {
            let mut ns = node_states[n];
            ns.jewel_number = 0;
            node_states[n] = ns;
            n = n + 1;
        }
        let jewel_number = if state.variant.numbered_jewels {
            state.jewel_number
        } else {
            [0u8; JEWEL_COUNT]
        };
        PlayerView {
            figure_id,
            figure_count: state.figure_count,
            active_figure: state.active_figure,
            phase: state.phase,
            die_roll: state.die_roll,
            figure_positions: state.figure_pos,
            figure_carries: state.figure_carries,
            node_states,
            edge_closed,
            spuk_count: state.spuk_count,
            jewel_deposited: state.jewel_deposited,
            jewel_number,
            next_required_jewel: state.next_required_jewel,
            deck_size: state.deck.remaining(),
            legal_actions: vstd::slice::slice_to_vec(legal),
            variant: state.variant,
        }
    }
}

/// The fixed length of the observation vector of any variant, to size the
/// input layers of neural networks.
pub fn observation_dim() -> (d: usize)
    ensures
        d == 4 * NODE_COUNT + 4 * (JEWEL_COUNT + 1) + NODE_COUNT + NODE_COUNT + EDGE_COUNT + 1 + NODE_COUNT
            + JEWEL_COUNT + JEWEL_COUNT + 1 + 1 + MAX_FIGURES + 6 + 1,
        d == 363,
{
    4 * NODE_COUNT  // figure positions (one-hot)
     + 4 * (JEWEL_COUNT + 1)  // carry status (0..=8)
     + NODE_COUNT  // ghosts per node
     + NODE_COUNT  // Spuk per node
     + EDGE_COUNT  // edge closed
     + 1  // Spuk count
     + NODE_COUNT  // jewel in node
     + JEWEL_COUNT  // jewel deposited
     + JEWEL_COUNT  // jewel number
     + 1  // next required jewel
     + 1  // deck size
     + MAX_FIGURES  // active figure one-hot
     + 6  // phase one-hot
     + 1  // die roll
}

/// A game state that agrees with what `view` shows, for searching ahead from it:
/// the hidden deck order becomes placeholder cards (as many as are left), a
/// figure in the Move phase may move as far as the die showed, and the game runs.
pub fn view_to_state(view: &PlayerView) -> (s: GameState)
    ensures
        s.variant == view.variant,
        s.figure_count == view.figure_count,
        s.active_figure == view.active_figure,
        s.phase == view.phase,
        s.die_roll == view.die_roll,
        s.moves_remaining == if view.phase == TurnPhase::Move {
            view.die_roll
        } else {
            0
        },
        s.figure_pos == view.figure_positions,
        s.figure_carries == view.figure_carries,
        s.node_states == view.node_states,
        forall|e: int| 0 <= e < EDGE_COUNT ==> (#[trigger] s.edge_states@[e]).closed == view.edge_closed@[e],
        s.spuk_count == view.spuk_count,
        s.jewel_deposited == view.jewel_deposited,
        s.jewel_number == view.jewel_number,
        s.next_required_jewel == view.next_required_jewel,
        forall|i: int| 0 <= i < GHOST_DECK_CAPACITY ==> #[trigger] s.deck.cards@[i] == GhostCard::Room(RoomLabel::A),
        s.deck.top == 0,
        s.deck.size == view.deck_size,
        !s.game_over,
        !s.players_won,
{
    let mut edge_states = [EdgeState { closed: false }; EDGE_COUNT];
    let mut i: usize = 0;
    while i < EDGE_COUNT
        invariant
            i <= EDGE_COUNT,
            forall|e: int| 0 <= e < i ==> (#[trigger] edge_states@[e]).closed == view.edge_closed@[e],
        decreases EDGE_COUNT - i,
    {
        edge_states[i] = EdgeState { closed: view.edge_closed[i] };
        i = i + 1;
    }
    let moves_remaining = match view.phase {
        TurnPhase::Move => view.die_roll,
        _ => 0,
    };
    GameState {
        variant: view.variant,
        figure_count: view.figure_count,
        active_figure: view.active_figure,
        phase: view.phase,
        die_roll: view.die_roll,
        moves_remaining,
        figure_pos: view.figure_positions,
        figure_carries: view.figure_carries,
        node_states: view.node_states,
        edge_states,
        spuk_count: view.spuk_count,
        jewel_deposited: view.jewel_deposited,
        jewel_number: view.jewel_number,
        next_required_jewel: view.next_required_jewel,
        deck: GhostDeck {
            cards: [GhostCard::Room(RoomLabel::A); GHOST_DECK_CAPACITY],
            top: 0,
            size: view.deck_size,
        },
        game_over: false,
        players_won: false,
    }
}

} // verus!
