//! Runtime game state: per-node and per-edge state, the ghost deck, the turn
//! phase and the full game state.
use vstd::prelude::*;

use crate::board::{NodeId, RoomLabel, EDGE_COUNT, NODE_COUNT};
use crate::variant::Variant;

verus! {

pub type FigureId = u8;

pub type JewelId = u8;

pub const MAX_FIGURES: usize = 4;

pub const JEWEL_COUNT: usize = 8;

pub const GHOST_DECK_CAPACITY: usize = 19;

pub const MAX_SPUK: u8 = 6;

pub const MAX_GHOSTS_BEFORE_SPUK: u8 = 3;

/// Whether bit `i` of the figure bitmask `x` is set.
pub open spec fn has_bit(x: u8, i: int) -> bool {
    x & (1u8 << (i as u8)) != 0
}

/// The number of set bits among the lowest `k` bits of `x`.
pub open spec fn count_bits(x: u8, k: nat) -> nat
    decreases k,
{
    if k == 0 {
        0
    } else {
        count_bits(x, (k - 1) as nat) + if has_bit(x, k - 1) {
            1nat
        } else {
            0nat
        }
    }
}

/// The number of figures recorded in a bitmask.
pub open spec fn popcount(x: u8) -> nat {
    count_bits(x, 8)
}

/// Setting bit `f` sets exactly that bit.
pub proof fn lemma_bit_insert(x: u8, f: u8)
    requires
        f < 8,
    ensures
        forall|j: u8| #![auto] j < 8 ==> ((x | (1u8 << f)) & (1u8 << j) != 0) == (j == f || x & (1u8 << j) != 0),
{
    assert(forall|j: u8| #![auto] j < 8 ==> ((x | (1u8 << f)) & (1u8 << j) != 0) == (j == f || x & (1u8 << j) != 0)) by (bit_vector)
        requires
            f < 8,
    ;
}

/// Clearing bit `f` clears exactly that bit.
pub proof fn lemma_bit_remove(x: u8, f: u8)
    requires
        f < 8,
    ensures
        forall|j: u8| #![auto] j < 8 ==> ((x & !(1u8 << f)) & (1u8 << j) != 0) == (j != f && x & (1u8 << j) != 0),
{
    assert(forall|j: u8| #![auto] j < 8 ==> ((x & !(1u8 << f)) & (1u8 << j) != 0) == (j != f && x & (1u8 << j) != 0)) by (bit_vector)
        requires
            f < 8,
    ;
}

/// Setting bit `f` of a figure bitmask sets exactly figure `f`.
pub proof fn lemma_has_bit_insert(x: u8, f: u8)
    requires
        f < 8,
    ensures
        forall|j: int| 0 <= j < 8 ==> #[trigger] has_bit(x | (1u8 << f), j) == (j == f || has_bit(x, j)),
{
    lemma_bit_insert(x, f);
    assert forall|j: int| 0 <= j < 8 implies #[trigger] has_bit(x | (1u8 << f), j) == (j == f || has_bit(x, j)) by {
        let jj = j as u8;
        assert(((x | (1u8 << f)) & (1u8 << jj) != 0) == (jj == f || x & (1u8 << jj) != 0));
    }
}

/// Clearing bit `f` of a figure bitmask clears exactly figure `f`.
pub proof fn lemma_has_bit_remove(x: u8, f: u8)
    requires
        f < 8,
    ensures
        forall|j: int| 0 <= j < 8 ==> #[trigger] has_bit(x & !(1u8 << f), j) == (j != f && has_bit(x, j)),
{
    lemma_bit_remove(x, f);
    assert forall|j: int| 0 <= j < 8 implies #[trigger] has_bit(x & !(1u8 << f), j) == (j != f && has_bit(x, j)) by {
        let jj = j as u8;
        assert(((x & !(1u8 << f)) & (1u8 << jj) != 0) == (jj != f && x & (1u8 << jj) != 0));
    }
}

#[derive(Debug, Clone, Copy, PartialEq, Eq, Hash, Structural)]
pub struct NodeState {
    /// Ghost figures present (0–2; placing a 3rd turns them into a Spuk).
    pub ghosts: u8,
    /// Whether a Spuk (haunt) figure occupies this room.
    pub has_spuk: bool,
    /// Which jewel is in this node, if any.
    pub jewel: Option<JewelId>,
    /// Pre-assigned number (1–8) of the jewel in this room; 0 = none or base variant.
    /// Hidden from strategies: player views always show 0 here. The engine copies it
    /// into the game state's `jewel_number` when a figure first enters the room.
    pub jewel_number: u8,
    /// Bitmask of figures currently here (bit i = figure i).
    pub figures: u8,
}

impl Default for NodeState {
    /// An empty node.
    fn default() -> (n: Self)
        ensures
            n == (NodeState { ghosts: 0, has_spuk: false, jewel: None, jewel_number: 0, figures: 0 }),
    {
        NodeState { ghosts: 0, has_spuk: false, jewel: None, jewel_number: 0, figures: 0 }
    }
}

impl NodeState {
    /// Whether figure `fig` is in this node.
    pub fn has_figure(&self, fig: FigureId) -> (b: bool)
        requires
            fig < 8,
        ensures
            b == has_bit(self.figures, fig as int),
    {
        self.figures & (1u8 << fig) != 0
    }

    /// Records figure `fig` as present; nothing else changes.
    pub fn add_figure(&mut self, fig: FigureId)
        requires
            fig < 8,
        ensures
            final(self).figures == old(self).figures | (1u8 << fig),
            forall|j: int| 0 <= j < 8 ==> has_bit(final(self).figures, j) == (j == fig || has_bit(old(self).figures, j)),
            final(self).ghosts == old(self).ghosts,
            final(self).has_spuk == old(self).has_spuk,
            final(self).jewel == old(self).jewel,
            final(self).jewel_number == old(self).jewel_number,
    {
        proof {
            lemma_has_bit_insert(self.figures, fig);
        }
        self.figures = self.figures | (1u8 << fig);
    }

    /// Records figure `fig` as absent; nothing else changes.
    pub fn remove_figure(&mut self, fig: FigureId)
        requires
            fig < 8,
        ensures
            final(self).figures == old(self).figures & !(1u8 << fig),
            forall|j: int| 0 <= j < 8 ==> has_bit(final(self).figures, j) == (j != fig && has_bit(old(self).figures, j)),
            final(self).ghosts == old(self).ghosts,
            final(self).has_spuk == old(self).has_spuk,
            final(self).jewel == old(self).jewel,
            final(self).jewel_number == old(self).jewel_number,
    {
        proof {
            lemma_has_bit_remove(self.figures, fig);
        }
        self.figures = self.figures & !(1u8 << fig);
    }

    /// The number of figures in this node.
    pub fn figure_count(&self) -> (n: u8)
        ensures
            n == popcount(self.figures),
    {
        let mut c: u8 = 0;
        let mut i: u8 = 0;
        while i < 8
            invariant
                i <= 8,
                c == count_bits(self.figures, i as nat),
                c <= i,
            decreases 8 - i,
        {
            if self.figures & (1u8 << i) != 0 {
                c = c + 1;
            }
            i = i + 1;
        }
        c
    }
}

#[derive(Debug, Clone, Copy, PartialEq, Eq, Hash, Structural)]
pub struct EdgeState {
    /// Whether this door or passage is currently blocked.
    pub closed: bool,
}

impl Default for EdgeState {
    /// An open edge.
    fn default() -> (e: Self)
        ensures
            e == (EdgeState { closed: false }),
    {
        EdgeState { closed: false }
    }
}

/// A ghost card names the room where a new ghost is placed, or carries a special action.
#[derive(Debug, Clone, Copy, PartialEq, Eq, Hash, Structural)]
pub enum GhostCard {
    /// Place one ghost in the named room.
    Room(RoomLabel),
    /// Draw 2 additional ghost cards (advanced variant).
    DrawTwo,
    /// Draw 3 additional ghost cards (advanced variant).
    DrawThree,
    /// Reshuffle the entire deck immediately.
    Reshuffle,
    /// Block all blue doors (advanced variant).
    BlueDoors,
    /// Block all green doors (advanced variant).
    GreenDoors,
}

/// Inline deck. `top` points to the next undrawn card; cards `0..top` have been drawn.
#[derive(Debug, Clone, Copy, PartialEq, Eq, Hash)]
pub struct GhostDeck {
    pub cards: [GhostCard; GHOST_DECK_CAPACITY],
    /// Index of the next card to draw.
    pub top: u8,
    /// Number of cards in the deck.
    pub size: u8,
}

impl GhostDeck {
    /// The deck holds at most its capacity of cards.
    pub open spec fn wf(&self) -> bool {
        self.size <= GHOST_DECK_CAPACITY
    }

    /// True when no undrawn card is left.
    pub fn is_empty(&self) -> (b: bool)
        ensures
            b == (self.top >= self.size),
    {
        self.top >= self.size
    }

    /// The number of undrawn cards.
    pub fn remaining(&self) -> (n: u8)
        ensures
            n == (if self.top <= self.size { self.size - self.top } else { 0 }),
    {
        self.size.saturating_sub(self.top)
    }

    /// Draws the next card and advances the cursor; `None` if the deck is empty
    /// (the engine must reshuffle first).
    pub fn draw(&mut self) -> (c: Option<GhostCard>)
        requires
            old(self).wf(),
        ensures
            old(self).top >= old(self).size ==> c is None && *final(self) == *old(self),
            old(self).top < old(self).size ==> c == Some(old(self).cards@[old(self).top as int])
                && final(self).top == old(self).top + 1 && final(self).cards == old(self).cards
                && final(self).size == old(self).size,
    {
        if self.is_empty() {
            return None;
        }
        let card = self.cards[self.top as usize];
        self.top = self.top + 1;
        Some(card)
    }

    /// Makes all cards drawable again.
    pub fn reset_cursor(&mut self)
        ensures
            final(self).top == 0,
            final(self).cards == old(self).cards,
            final(self).size == old(self).size,
    {
        self.top = 0;
    }
}

#[derive(Debug, Clone, Copy, PartialEq, Eq, Hash, Structural)]
pub enum TurnPhase {
    /// The active figure must roll the number die.
    RollDie,
    /// The active figure must draw (and resolve) ghost cards.
    /// Only reached when the die roll is below 6; a 6 goes straight to Move.
    DrawGhostCard { cards_remaining: u8 },
    /// The active figure may move (up to `moves_remaining` steps).
    Move,
    /// The active figure may pick up a jewel in its current room (always optional).
    PickupJewel,
    /// The active figure may fight ghosts or Spuk in its current room.
    Combat,
    /// The turn is complete; the engine advances to the next figure.
    EndTurn,
}

#[derive(Debug, Clone, Copy, PartialEq, Eq, Hash)]
pub struct GameState {
    // Configuration (set once at setup, never changed).
    pub variant: Variant,
    /// Number of active figures (3 or 4).
    pub figure_count: u8,
    // Board runtime state.
    pub node_states: [NodeState; NODE_COUNT],
    pub edge_states: [EdgeState; EDGE_COUNT],
    /// Current node of each figure.
    pub figure_pos: [NodeId; MAX_FIGURES],
    /// Jewel carried by each figure, if any.
    pub figure_carries: [Option<JewelId>; MAX_FIGURES],
    /// Whether each jewel has been deposited at the entrance.
    pub jewel_deposited: [bool; JEWEL_COUNT],
    /// Revealed number (1–8) of each jewel; 0 = not yet revealed.
    /// Set when a figure first enters the room holding that jewel.
    pub jewel_number: [u8; JEWEL_COUNT],
    /// Next jewel number that must be collected (numbered-jewel variant).
    pub next_required_jewel: u8,
    /// Spuk figures currently on the board; the game is lost when this reaches 6.
    pub spuk_count: u8,
    pub deck: GhostDeck,
    pub active_figure: FigureId,
    pub phase: TurnPhase,
    pub die_roll: u8,
    pub moves_remaining: u8,
    pub game_over: bool,
    pub players_won: bool,
}

} // verus!
