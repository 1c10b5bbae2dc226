//! The action vocabulary of learned policies: each action a number below
//! `ACTION_DIM`, in the layout
//!
//! ```text
//!   0          RollDie
//!   1          DrawGhostCard
//!   2..=46     MoveAlongEdge { edge: 0..=44 }
//!   47         StopMoving
//!   48..=55    PickupJewel { jewel: 0..=7 }
//!   56         SkipPickup
//!   57         DepositJewel
//!   58         Fight
//!   59         SkipCombat
//!   60         EndTurn
//! ```
use vstd::prelude::*;

use crate::action::Action;
use crate::board::EDGE_COUNT;
use crate::state::JEWEL_COUNT;

verus! {

/// The number of actions in the vocabulary.
pub const ACTION_DIM: usize = 61;

const MOVE_OFFSET: usize = 2;

const STOP_IDX: usize = MOVE_OFFSET + EDGE_COUNT;

const PICKUP_OFFSET: usize = STOP_IDX + 1;

const SKIP_PICKUP_IDX: usize = PICKUP_OFFSET + JEWEL_COUNT;

const DEPOSIT_IDX: usize = SKIP_PICKUP_IDX + 1;

const FIGHT_IDX: usize = DEPOSIT_IDX + 1;

const SKIP_COMBAT_IDX: usize = FIGHT_IDX + 1;

const END_TURN_IDX: usize = SKIP_COMBAT_IDX + 1;

/// The vocabulary number of an action.
pub open spec fn action_index(a: Action) -> int {
    match a {
        Action::RollDie => 0,
        Action::DrawGhostCard => 1,
        Action::MoveAlongEdge { edge } => 2 + edge,
        Action::StopMoving => 47,
        Action::PickupJewel { jewel } => 48 + jewel,
        Action::SkipPickup => 56,
        Action::DepositJewel => 57,
        Action::Fight => 58,
        Action::SkipCombat => 59,
        Action::EndTurn => 60,
    }
}

/// The action with vocabulary number `i` (for `i` below `ACTION_DIM`).
pub open spec fn indexed_action(i: int) -> Action {
    if i == 0 {
        Action::RollDie
    } else if i == 1 {
        Action::DrawGhostCard
    } else if 2 <= i < 47 {
        Action::MoveAlongEdge { edge: (i - 2) as u8 }
    } else if i == 47 {
        Action::StopMoving
    } else if 48 <= i < 56 {
        Action::PickupJewel { jewel: (i - 48) as u8 }
    } else if i == 56 {
        Action::SkipPickup
    } else if i == 57 {
        Action::DepositJewel
    } else if i == 58 {
        Action::Fight
    } else if i == 59 {
        Action::SkipCombat
    } else {
        Action::EndTurn
    }
}

/// An action of the game: its edge is on the board and its jewel is one of the eight.
pub open spec fn in_vocabulary(a: Action) -> bool {
    match a {
        Action::MoveAlongEdge { edge } => edge < EDGE_COUNT,
        Action::PickupJewel { jewel } => jewel < JEWEL_COUNT,
        _ => true,
    }
}

/// The vocabulary number of `action`.
pub fn action_to_idx(action: Action) -> (i: usize)
    ensures
        i == action_index(action),
{
    match action {
        Action::RollDie => 0,
        Action::DrawGhostCard => 1,
        Action::MoveAlongEdge { edge } => MOVE_OFFSET + edge as usize,
        Action::StopMoving => STOP_IDX,
        Action::PickupJewel { jewel } => PICKUP_OFFSET + jewel as usize,
        Action::SkipPickup => SKIP_PICKUP_IDX,
        Action::DepositJewel => DEPOSIT_IDX,
        Action::Fight => FIGHT_IDX,
        Action::SkipCombat => SKIP_COMBAT_IDX,
        Action::EndTurn => END_TURN_IDX,
    }
}

/// The action with vocabulary number `idx`.
pub fn idx_to_action(idx: usize) -> (a: Action)
    requires
        idx < ACTION_DIM,
    ensures
        a == indexed_action(idx as int),
{
    if idx == 0 {
        Action::RollDie
    } else if idx == 1 {
        Action::DrawGhostCard
    } else if MOVE_OFFSET <= idx && idx < STOP_IDX {
        Action::MoveAlongEdge { edge: (idx - MOVE_OFFSET) as u8 }
    } else if idx == STOP_IDX {
        Action::StopMoving
    } else if PICKUP_OFFSET <= idx && idx < SKIP_PICKUP_IDX {
        Action::PickupJewel { jewel: (idx - PICKUP_OFFSET) as u8 }
    } else if idx == SKIP_PICKUP_IDX {
        Action::SkipPickup
    } else if idx == DEPOSIT_IDX {
        Action::DepositJewel
    } else if idx == FIGHT_IDX {
        Action::Fight
    } else if idx == SKIP_COMBAT_IDX {
        Action::SkipCombat
    } else {
        Action::EndTurn
    }
}

/// The vocabulary numbers the actions of the game one to one with the numbers
/// below `ACTION_DIM`: numbering an action and reading the number back gives the
/// action, and reading a number and numbering the action gives the number.
pub proof fn lemma_vocabulary_bijective(a: Action, i: int)
    ensures
        in_vocabulary(a) ==> 0 <= action_index(a) < ACTION_DIM && indexed_action(action_index(a)) == a,
        0 <= i < ACTION_DIM ==> in_vocabulary(indexed_action(i)) && action_index(indexed_action(i)) == i,
{
}

} // verus!
