//! Checking at run time that a state meets the invariant, for states that come
//! from outside the engine (such as a state rebuilt from a player's view).
use vstd::prelude::*;

use crate::board::{is_room_node, NODE_COUNT};
use crate::engine::{core_ok, deposited_total, figures_ok, jewels_ok, nodes_ok, phase_ok, spuk_total};
use crate::state::{has_bit, GameState, TurnPhase, GHOST_DECK_CAPACITY, JEWEL_COUNT, MAX_FIGURES};

verus! {

/// Every figure stands on the board, and the node bitmasks agree with the positions.
fn figures_valid(s: &GameState) -> (b: bool)
    requires
        s.figure_count <= MAX_FIGURES,
    ensures
        b == figures_ok(*s),
{
    let mut i: usize = 0;
    while i < MAX_FIGURES
        invariant
            i <= MAX_FIGURES,
            forall|k: int| 0 <= k < i ==> (#[trigger] s.figure_pos@[k]) < NODE_COUNT,
        decreases MAX_FIGURES - i,
    {
        if s.figure_pos[i] as usize >= NODE_COUNT {
            return false;
        }
        i = i + 1;
    }
    let mut n: usize = 0;
    while n < NODE_COUNT
        invariant
            n <= NODE_COUNT,
            s.figure_count <= MAX_FIGURES,
            forall|k: int| 0 <= k < MAX_FIGURES ==> (#[trigger] s.figure_pos@[k]) < NODE_COUNT,
            forall|m: int, j: int|
                0 <= m < n && 0 <= j < 8 ==> #[trigger] has_bit(s.node_states@[m].figures, j) == (j < s.figure_count
                    && s.figure_pos@[j] == m),
        decreases NODE_COUNT - n,
    {
        let mut j: u8 = 0;
        while j < 8
            invariant
                n < NODE_COUNT,
                j <= 8,
                s.figure_count <= MAX_FIGURES,
                forall|m: int, k: int|
                    0 <= m < n && 0 <= k < 8 ==> #[trigger] has_bit(s.node_states@[m].figures, k) == (k
                        < s.figure_count && s.figure_pos@[k] == m),
                forall|k: int|
                    0 <= k < j ==> #[trigger] has_bit(s.node_states@[n as int].figures, k) == (k < s.figure_count
                        && s.figure_pos@[k] == n),
            decreases 8 - j,
        {
            let here = s.node_states[n].has_figure(j);
            let placed = j < s.figure_count && (j as usize) < MAX_FIGURES && s.figure_pos[j as usize] as usize == n;
            if here != placed {
                return false;
            }
            j = j + 1;
        }
        n = n + 1;
    }
    true
}

/// Fewer than three ghosts anywhere, Spuk only in rooms, and the Spuk counter
/// equals the number of Spuk on the board.
fn nodes_valid(s: &GameState) -> (b: bool)
    ensures
        b == nodes_ok(*s),
{
    let mut count: u8 = 0;
    let mut n: usize = 0;
    while n < NODE_COUNT
        invariant
            n <= NODE_COUNT,
            count == spuk_total(s.node_states@, n as nat),
            count <= n,
            forall|m: int| 0 <= m < n ==> (#[trigger] s.node_states@[m]).ghosts < 3,
            forall|m: int| 0 <= m < n && (#[trigger] s.node_states@[m]).has_spuk ==> is_room_node(m),
        decreases NODE_COUNT - n,
    {
        let ns = s.node_states[n];
        if ns.ghosts >= 3 || (ns.has_spuk && !(24 <= n && n <= 35)) {
            return false;
        }
        if ns.has_spuk {
            count = count + 1;
        }
        n = n + 1;
    }
    count == s.spuk_count
}

/// Jewel `j`, found in node `n`, is nowhere else: not deposited, not carried,
/// in no other node.
fn jewel_only_in_node(s: &GameState, n: usize, j: u8) -> (b: bool)
    requires
        n < NODE_COUNT,
    ensures
        b == {
            &&& j < JEWEL_COUNT
            &&& !s.jewel_deposited@[j as int]
            &&& forall|f: int| 0 <= f < MAX_FIGURES ==> #[trigger] s.figure_carries@[f] != Some(j)
            &&& forall|m: int| 0 <= m < NODE_COUNT && m != n ==> (#[trigger] s.node_states@[m]).jewel != Some(j)
        },
{
    if j as usize >= JEWEL_COUNT || s.jewel_deposited[j as usize] {
        return false;
    }
    let mut f: usize = 0;
    while f < MAX_FIGURES
        invariant
            f <= MAX_FIGURES,
            forall|g: int| 0 <= g < f ==> #[trigger] s.figure_carries@[g] != Some(j),
        decreases MAX_FIGURES - f,
    {
        if s.figure_carries[f] == Some(j) {
            return false;
        }
        f = f + 1;
    }
    let mut m: usize = 0;
    while m < NODE_COUNT
        invariant
            m <= NODE_COUNT,
            forall|k: int| 0 <= k < m && k != n ==> (#[trigger] s.node_states@[k]).jewel != Some(j),
        decreases NODE_COUNT - m,
    {
        if m != n && s.node_states[m].jewel == Some(j) {
            return false;
        }
        m = m + 1;
    }
    true
}

/// Jewel `j`, carried by figure `f`, is not deposited and no other figure carries it.
fn jewel_only_carried(s: &GameState, f: usize, j: u8) -> (b: bool)
    requires
        f < MAX_FIGURES,
    ensures
        b == {
            &&& j < JEWEL_COUNT
            &&& !s.jewel_deposited@[j as int]
            &&& forall|g: int| 0 <= g < MAX_FIGURES && g != f ==> #[trigger] s.figure_carries@[g] != Some(j)
        },
{
    if j as usize >= JEWEL_COUNT || s.jewel_deposited[j as usize] {
        return false;
    }
    let mut g: usize = 0;
    while g < MAX_FIGURES
        invariant
            g <= MAX_FIGURES,
            forall|k: int| 0 <= k < g && k != f ==> #[trigger] s.figure_carries@[k] != Some(j),
        decreases MAX_FIGURES - g,
    {
        if g != f && s.figure_carries[g] == Some(j) {
            return false;
        }
        g = g + 1;
    }
    true
}

/// Each jewel is in at most one place (see `jewels_ok`).
fn jewels_valid(s: &GameState) -> (b: bool)
    ensures
        b == jewels_ok(*s),
{
    let mut n: usize = 0;
    while n < NODE_COUNT
        invariant
            n <= NODE_COUNT,
            forall|m: int|
                0 <= m < n ==> ((#[trigger] s.node_states@[m]).jewel matches Some(j) ==> {
                    &&& j < JEWEL_COUNT
                    &&& !s.jewel_deposited@[j as int]
                    &&& forall|f: int| 0 <= f < MAX_FIGURES ==> #[trigger] s.figure_carries@[f] != Some(j)
                    &&& forall|k: int| 0 <= k < NODE_COUNT && k != m ==> (#[trigger] s.node_states@[k]).jewel != Some(j)
                }),
        decreases NODE_COUNT - n,
    {
        if let Some(j) = s.node_states[n].jewel {
            if !jewel_only_in_node(s, n, j) {
                return false;
            }
        }
        n = n + 1;
    }
    let mut f: usize = 0;
    while f < MAX_FIGURES
        invariant
            f <= MAX_FIGURES,
            forall|m: int|
                0 <= m < NODE_COUNT ==> ((#[trigger] s.node_states@[m]).jewel matches Some(j) ==> {
                    &&& j < JEWEL_COUNT
                    &&& !s.jewel_deposited@[j as int]
                    &&& forall|g: int| 0 <= g < MAX_FIGURES ==> #[trigger] s.figure_carries@[g] != Some(j)
                    &&& forall|k: int| 0 <= k < NODE_COUNT && k != m ==> (#[trigger] s.node_states@[k]).jewel != Some(j)
                }),
            forall|g: int|
                0 <= g < f ==> ((#[trigger] s.figure_carries@[g]) matches Some(j) ==> {
                    &&& j < JEWEL_COUNT
                    &&& !s.jewel_deposited@[j as int]
                    &&& forall|h: int| 0 <= h < MAX_FIGURES && h != g ==> #[trigger] s.figure_carries@[h] != Some(j)
                }),
        decreases MAX_FIGURES - f,
    {
        if let Some(j) = s.figure_carries[f] {
            if !jewel_only_carried(s, f, j) {
                return false;
            }
        }
        f = f + 1;
    }
    true
}

impl GameState {
    /// Whether the state meets the invariant that the engine keeps (`wf`), so
    /// that a game may continue from it.
    pub fn is_valid(&self) -> (b: bool)
        ensures
            b == self.wf(),
    {
        if !(self.figure_count == 3 || self.figure_count == 4) || self.active_figure >= self.figure_count {
            return false;
        }
        if !figures_valid(self) || !nodes_valid(self) || !jewels_valid(self) {
            return false;
        }
        let mut deposited: u8 = 0;
        let mut j: usize = 0;
        while j < JEWEL_COUNT
            invariant
                j <= JEWEL_COUNT,
                deposited == deposited_total(self.jewel_deposited@, j as nat),
                deposited <= j,
            decreases JEWEL_COUNT - j,
        {
            if self.jewel_deposited[j] {
                deposited = deposited + 1;
            }
            j = j + 1;
        }
        if self.next_required_jewel as u16 > 1 + deposited as u16 || self.deck.size as usize > GHOST_DECK_CAPACITY {
            return false;
        }
        proof {
            assert(core_ok(*self));
        }
        match self.phase {
            TurnPhase::DrawGhostCard { cards_remaining } => self.moves_remaining >= 1 && (self.game_over
                || cards_remaining >= 1),
            TurnPhase::Move => self.moves_remaining >= 1,
            _ => true,
        }
    }
}

} // verus!
