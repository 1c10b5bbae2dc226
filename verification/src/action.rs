//! The actions a figure can take, and the faces of the symbol dice.
use vstd::prelude::*;

use crate::board::EdgeId;
use crate::state::JewelId;

verus! {

/// Every action a figure can take on its turn.
/// The engine validates and resolves all actions; strategies pick from the legal actions.
#[derive(Debug, Clone, Copy, PartialEq, Eq, Hash, Structural)]
pub enum Action {
    /// Phase RollDie. The engine rolls internally; kept so that game logs are complete.
    RollDie,
    /// Phase DrawGhostCard. The engine draws and resolves the card.
    DrawGhostCard,
    /// Phase Move. Move the active figure along the given edge to the adjacent node.
    MoveAlongEdge { edge: EdgeId },
    /// Phase Move. Stop moving; the remaining movement points are dropped.
    StopMoving,
    /// Phase PickupJewel. Pick up the specified jewel in the current room.
    PickupJewel { jewel: JewelId },
    /// Phase PickupJewel. Skip jewel pickup.
    SkipPickup,
    /// Phase PickupJewel or EndTurn (and Move, when the figure may stop there).
    /// Deposit the carried jewel at the entrance. Legal when the figure is at
    /// the entrance node and carrying a jewel.
    DepositJewel,
    /// Phase Combat. Roll the symbol dice to fight ghosts or Spuk in the current room.
    Fight,
    /// Phase Combat. Skip combat.
    SkipCombat,
    /// Phase EndTurn. Advance to the next figure.
    EndTurn,
}

/// Face values on the two symbol dice.
#[derive(Debug, Clone, Copy, PartialEq, Eq, Hash, Structural)]
pub enum SymbolFace {
    GhostFace,
    Spuk,
    Blank,
}

impl SymbolFace {
    /// The six faces of one symbol die.
    pub const FACES: [SymbolFace; 6] = [
        SymbolFace::GhostFace,
        SymbolFace::GhostFace,
        SymbolFace::GhostFace,
        SymbolFace::Blank,
        SymbolFace::Spuk,
        SymbolFace::Spuk,
    ];
}

/// Outcome of rolling both symbol dice.
#[derive(Debug, Clone, Copy, PartialEq, Eq, Hash, Structural)]
pub struct CombatRoll {
    pub die_a: SymbolFace,
    pub die_b: SymbolFace,
}

impl CombatRoll {
    /// True when either die shows the Spuk face.
    pub fn has_spuk(self) -> (b: bool)
        ensures
            b == (self.die_a == SymbolFace::Spuk || self.die_b == SymbolFace::Spuk),
    {
        self.die_a == SymbolFace::Spuk || self.die_b == SymbolFace::Spuk
    }

    /// The number of dice showing the ghost face.
    pub fn ghost_count(self) -> (n: u8)
        ensures
            n == (if self.die_a == SymbolFace::GhostFace { 1int } else { 0int }) + (if self.die_b
                == SymbolFace::GhostFace {
                1int
            } else {
                0int
            }),
    {
        let a: u8 = if self.die_a == SymbolFace::GhostFace { 1 } else { 0 };
        let b: u8 = if self.die_b == SymbolFace::GhostFace { 1 } else { 0 };
        a + b
    }
}

} // verus!
