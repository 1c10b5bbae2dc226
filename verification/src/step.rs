//! One step of the game as a pure function of the state, the action and the
//! chance outcomes, its executable form, and the proof that a step keeps the
//! state invariant.
use vstd::prelude::*;

use crate::action::Action;
use crate::board::{edges_at, incident, lemma_edge_ends, lemma_incident_upto, spec_other_end, EDGE_COUNT};
use crate::engine::{
    advance_from_move, advance_turn, after_roll, deposit_jewel, fight, move_figure, pickup_jewel,
    resolve_next_ghost_card, spec_advance_from_move, spec_advance_turn, spec_after_roll, spec_deposit,
    spec_draw_deck, spec_fight, spec_move, spec_pickup, spec_resolve_card, Draws, StepResult,
};
use crate::rules::{
    active_pos, indices_ok, is_loss, is_win, legal_actions, move_actions, open_edges, spec_is_loss,
    spec_is_win, spec_legal_actions, spec_reachable_edges,
};
use crate::state::{GameState, GhostCard, TurnPhase, GHOST_DECK_CAPACITY};

verus! {

/// `s` in phase `p`.
pub open spec fn with_phase(s: GameState, p: TurnPhase) -> GameState {
    GameState { phase: p, ..s }
}

/// After a ghost card was resolved: a lost game reports the loss; otherwise the
/// figure draws on while cards are queued, and moves once none is left.
pub open spec fn spec_after_draw(s: GameState) -> (GameState, StepResult) {
    if s.game_over {
        (s, StepResult::Loss)
    } else {
        match s.phase {
            TurnPhase::DrawGhostCard { cards_remaining } => if cards_remaining > 0 {
                (s, StepResult::Continue)
            } else {
                (with_phase(s, TurnPhase::Move), StepResult::Continue)
            },
            _ => (with_phase(s, TurnPhase::Move), StepResult::Continue),
        }
    }
}

/// What an action does in the phase it belongs to, before the end of the game
/// is checked. An action of another phase changes nothing and is refused.
pub open spec fn spec_apply(s: GameState, a: Action, d: Draws) -> (GameState, StepResult) {
    let refused = (s, StepResult::IllegalAction);
    match s.phase {
        TurnPhase::RollDie => match a {
            Action::RollDie => (spec_after_roll(s, d.number), StepResult::Continue),
            _ => refused,
        },
        TurnPhase::DrawGhostCard { .. } => match a {
            Action::DrawGhostCard => spec_after_draw(spec_resolve_card(s, d.shuffled, d.reshuffled)),
            _ => refused,
        },
        TurnPhase::Move => match a {
            Action::MoveAlongEdge { edge } => (spec_move(s, edge), StepResult::Continue),
            Action::StopMoving => (
                spec_advance_from_move(GameState { moves_remaining: 0, ..s }),
                StepResult::Continue,
            ),
            Action::DepositJewel => (spec_deposit(s), StepResult::Continue),
            _ => refused,
        },
        TurnPhase::PickupJewel => match a {
            Action::PickupJewel { jewel } => (
                with_phase(spec_pickup(s, jewel), TurnPhase::Combat),
                StepResult::Continue,
            ),
            Action::SkipPickup => (with_phase(s, TurnPhase::Combat), StepResult::Continue),
            Action::DepositJewel => (with_phase(spec_deposit(s), TurnPhase::Combat), StepResult::Continue),
            _ => refused,
        },
        TurnPhase::Combat => match a {
            Action::Fight => (
                with_phase(spec_fight(s, d.die_a, d.die_b), TurnPhase::EndTurn),
                StepResult::Continue,
            ),
            Action::SkipCombat => (with_phase(s, TurnPhase::EndTurn), StepResult::Continue),
            _ => refused,
        },
        TurnPhase::EndTurn => match a {
            Action::EndTurn => (spec_advance_turn(s), StepResult::Continue),
            Action::DepositJewel => (spec_deposit(s), StepResult::Continue),
            _ => refused,
        },
    }
}

/// The end-of-step check: a lost position ends the game as a loss, a won one as
/// a win; otherwise the step's own result stands.
pub open spec fn spec_settle(s: GameState, r: StepResult) -> (GameState, StepResult) {
    if spec_is_loss(s) {
        (GameState { game_over: true, players_won: false, ..s }, StepResult::Loss)
    } else if spec_is_win(s) {
        (GameState { game_over: true, players_won: true, ..s }, StepResult::Win)
    } else {
        (s, r)
    }
}

/// One step: a finished game only reports its outcome; a legal action is
/// applied; any other action is refused with the state unchanged. Then the end
/// of the game is checked.
pub open spec fn spec_step(s: GameState, a: Action, d: Draws) -> (GameState, StepResult) {
    if s.game_over {
        (s, if s.players_won { StepResult::Win } else { StepResult::Loss })
    } else if spec_legal_actions(s).contains(a) {
        spec_settle(spec_apply(s, a, d).0, spec_apply(s, a, d).1)
    } else {
        spec_settle(s, StepResult::IllegalAction)
    }
}

/// Whether `action` is among the legal actions of `state`.
pub fn is_legal(state: &GameState, action: Action) -> (b: bool)
    requires
        crate::rules::legal_readable(*state),
    ensures
        b == spec_legal_actions(*state).contains(action),
{
    let acts = legal_actions(state);
    let mut i: usize = 0;
    while i < acts.len()
        invariant
            i <= acts.len(),
            acts@ == spec_legal_actions(*state),
            forall|k: int| 0 <= k < i ==> acts@[k] != action,
        decreases acts.len() - i,
    {
        if acts[i] == action {
            return true;
        }
        i = i + 1;
    }
    proof {
        assert(!acts@.contains(action));
    }
    false
}

/// Every open edge listed is one of the listed edges.
proof fn lemma_open_edges_listed(s: GameState, es: Seq<u8>)
    ensures
        forall|i: int| 0 <= i < open_edges(s, es).len() ==> es.contains(#[trigger] open_edges(s, es)[i]),
    decreases es.len(),
{
    if es.len() > 0 {
        lemma_open_edges_listed(s, es.drop_last());
        let prev = open_edges(s, es.drop_last());
        assert forall|i: int| 0 <= i < open_edges(s, es).len() implies es.contains(#[trigger] open_edges(s, es)[i]) by {
            if i < prev.len() {
                let x = prev[i];
                assert(es.drop_last().contains(x));
                let k = choose|k: int| 0 <= k < es.drop_last().len() && es.drop_last()[k] == x;
                assert(es[k] == x);
            } else {
                assert(es[es.len() - 1] == es.last());
            }
        }
    }
}

/// A legal move follows an edge of the board that touches the active figure's node.
pub proof fn lemma_legal_move_edge(s: GameState, e: u8)
    requires
        indices_ok(s),
        !s.game_over,
        s.phase is Move,
        spec_legal_actions(s).contains(Action::MoveAlongEdge { edge: e }),
    ensures
        e < EDGE_COUNT,
        incident(active_pos(s), e),
        spec_reachable_edges(s).contains(e),
{
    let r = spec_reachable_edges(s);
    let acts = spec_legal_actions(s);
    let k = choose|k: int| 0 <= k < acts.len() && acts[k] == Action::MoveAlongEdge { edge: e };
    assert(k < r.len());
    assert(move_actions(r)[k] == Action::MoveAlongEdge { edge: r[k] });
    assert(r[k] == e);
    assert(r.contains(e));
    let pos = active_pos(s);
    lemma_open_edges_listed(s, edges_at(pos));
    lemma_incident_upto(pos, EDGE_COUNT as nat);
    if !(crate::rules::carrying(s) && crate::rules::node_at(s, pos).has_spuk) {
        assert(edges_at(pos).contains(open_edges(s, edges_at(pos))[k]));
    }
}

/// Applies a legal action (see `spec_apply`).
fn apply(state: &mut GameState, action: Action, draws: &Draws) -> (r: StepResult)
    requires
        old(state).wf(),
        !old(state).game_over,
        spec_legal_actions(*old(state)).contains(action),
    ensures
        (*final(state), r) == spec_apply(*old(state), action, *draws),
{
    match state.phase {
        TurnPhase::RollDie => match action {
            Action::RollDie => {
                after_roll(state, draws.number);
                StepResult::Continue
            },
            _ => StepResult::IllegalAction,
        },
        TurnPhase::DrawGhostCard { .. } => match action {
            Action::DrawGhostCard => {
                resolve_next_ghost_card(state, &draws.shuffled, &draws.reshuffled);
                if state.game_over {
                    return StepResult::Loss;
                }
                // A Zieh card may have queued more draws.
                let more = match state.phase {
                    TurnPhase::DrawGhostCard { cards_remaining } => cards_remaining > 0,
                    _ => false,
                };
                if !more {
                    state.phase = TurnPhase::Move;
                }
                StepResult::Continue
            },
            _ => StepResult::IllegalAction,
        },
        TurnPhase::Move => match action {
            Action::MoveAlongEdge { edge } => {
                proof {
                    lemma_legal_move_edge(*state, edge);
                }
                move_figure(state, edge)
            },
            Action::StopMoving => {
                state.moves_remaining = 0;
                advance_from_move(state);
                StepResult::Continue
            },
            Action::DepositJewel => {
                deposit_jewel(state);
                // The figure stays in the Move phase: it may still have moves.
                StepResult::Continue
            },
            _ => StepResult::IllegalAction,
        },
        TurnPhase::PickupJewel => match action {
            Action::PickupJewel { jewel } => {
                pickup_jewel(state, jewel);
                state.phase = TurnPhase::Combat;
                StepResult::Continue
            },
            Action::SkipPickup => {
                state.phase = TurnPhase::Combat;
                StepResult::Continue
            },
            Action::DepositJewel => {
                deposit_jewel(state);
                state.phase = TurnPhase::Combat;
                StepResult::Continue
            },
            _ => StepResult::IllegalAction,
        },
        TurnPhase::Combat => match action {
            Action::Fight => {
                fight(state, draws.die_a, draws.die_b);
                state.phase = TurnPhase::EndTurn;
                StepResult::Continue
            },
            Action::SkipCombat => {
                state.phase = TurnPhase::EndTurn;
                StepResult::Continue
            },
            _ => StepResult::IllegalAction,
        },
        TurnPhase::EndTurn => match action {
            Action::EndTurn => {
                advance_turn(state);
                StepResult::Continue
            },
            Action::DepositJewel => {
                deposit_jewel(state);
                // The turn still has to be ended.
                StepResult::Continue
            },
            _ => StepResult::IllegalAction,
        },
    }
}

/// `a` holds the first `size` cards of `b` in some order, and the same cards after them.
pub open spec fn permutes(a: [GhostCard; GHOST_DECK_CAPACITY], b: [GhostCard; GHOST_DECK_CAPACITY], size: int) -> bool {
    &&& a@.subrange(0, size).to_multiset() == b@.subrange(0, size).to_multiset()
    &&& a@.subrange(size, GHOST_DECK_CAPACITY as int) == b@.subrange(size, GHOST_DECK_CAPACITY as int)
}

/// Chance outcomes that dice and shuffles can produce in state `s`: the number
/// die shows 1 to 6, and each shuffle rearranges the cards of the deck it shuffles.
pub open spec fn draws_fit(s: GameState, d: Draws) -> bool {
    &&& 1 <= d.number <= 6
    &&& permutes(d.shuffled, s.deck.cards, s.deck.size as int)
    &&& permutes(d.reshuffled, spec_draw_deck(s, d.shuffled).cards, s.deck.size as int)
}

/// Plays `action` with the given chance outcomes (see `spec_step`); the state stays valid.
pub fn step_with_draws(state: &mut GameState, action: Action, draws: &Draws) -> (r: StepResult)
    requires
        old(state).wf(),
        1 <= draws.number <= 6,
    ensures
        (*final(state), r) == spec_step(*old(state), action, *draws),
        final(state).wf(),
{
    proof {
        crate::preservation::lemma_step_keeps_wf(*state, action, *draws);
    }
    if state.game_over {
        return if state.players_won {
            StepResult::Win
        } else {
            StepResult::Loss
        };
    }
    let result = if is_legal(state, action) {
        apply(state, action, draws)
    } else {
        StepResult::IllegalAction
    };
    proof {
        crate::preservation::lemma_apply_indices(*old(state), action, *draws);
    }
    // The end of the game is checked after every step.
    if is_loss(state) {
        state.game_over = true;
        state.players_won = false;
        return StepResult::Loss;
    }
    if is_win(state) {
        state.game_over = true;
        state.players_won = true;
        return StepResult::Win;
    }
    result
}

/// A legal action is never refused.
pub proof fn lemma_legal_never_refused(s: GameState, a: Action, d: Draws)
    requires
        s.wf(),
        !s.game_over,
        spec_legal_actions(s).contains(a),
    ensures
        spec_step(s, a, d).1 != StepResult::IllegalAction,
{
    let acts = spec_legal_actions(s);
    let k = choose|k: int| 0 <= k < acts.len() && acts[k] == a;
    if s.phase is Move {
        let r = spec_reachable_edges(s);
        if k < r.len() {
            assert(move_actions(r)[k] == Action::MoveAlongEdge { edge: r[k] });
        }
    }
}

/// A refused action changes nothing.
pub proof fn lemma_refused_changes_nothing(s: GameState, a: Action, d: Draws)
    requires
        s.wf(),
    ensures
        spec_step(s, a, d).1 == StepResult::IllegalAction ==> spec_step(s, a, d).0 == s,
{
    if !s.game_over && spec_legal_actions(s).contains(a) {
        lemma_legal_never_refused(s, a, d);
    }
}

/// The result of a step agrees with the state it leaves: the game is over
/// exactly after a win or a loss; a win leaves every jewel deposited and every
/// figure at the entrance, a loss leaves six Spuk or every figure trapped.
pub proof fn lemma_result_agrees(s: GameState, a: Action, d: Draws)
    requires
        s.wf(),
        !s.game_over,
    ensures
        spec_step(s, a, d).0.game_over == (spec_step(s, a, d).1 == StepResult::Win || spec_step(s, a, d).1
            == StepResult::Loss),
        spec_step(s, a, d).1 == StepResult::Win ==> spec_step(s, a, d).0.players_won && spec_is_win(
            spec_step(s, a, d).0,
        ),
        spec_step(s, a, d).1 == StepResult::Loss ==> !spec_step(s, a, d).0.players_won && spec_is_loss(
            spec_step(s, a, d).0,
        ),
{
    if spec_legal_actions(s).contains(a) && s.phase is DrawGhostCard && a == Action::DrawGhostCard {
        lemma_resolve_sets_over_on_loss(s, d);
        let t = spec_resolve_card(s, d.shuffled, d.reshuffled);
        if t.game_over {
            assert(spec_is_loss(t));
        }
    }
    let t = spec_apply(s, a, d).0;
    if spec_legal_actions(s).contains(a) {
        lemma_loss_ignores_flags(t, true, false);
    } else {
        lemma_loss_ignores_flags(s, true, false);
    }
}

/// Whether a position is lost does not depend on the end-of-game flags.
proof fn lemma_loss_ignores_flags(s: GameState, over: bool, won: bool)
    ensures
        spec_is_loss(GameState { game_over: over, players_won: won, ..s }) == spec_is_loss(s),
{
    let t = GameState { game_over: over, players_won: won, ..s };
    assert forall|i: int| crate::rules::trapped(t, i) == crate::rules::trapped(s, i) by {}
}

/// Resolving a ghost card ends the game only when six or more Spuk are on the board.
proof fn lemma_resolve_sets_over_on_loss(s: GameState, d: Draws)
    requires
        s.wf(),
        !s.game_over,
        s.phase is DrawGhostCard,
    ensures
        spec_resolve_card(s, d.shuffled, d.reshuffled).game_over ==> spec_resolve_card(
            s,
            d.shuffled,
            d.reshuffled,
        ).spuk_count >= crate::state::MAX_SPUK && !spec_resolve_card(s, d.shuffled, d.reshuffled).players_won,
{
    let deck1 = spec_draw_deck(s, d.shuffled);
    if deck1.top < deck1.size {
        let card = deck1.cards@[deck1.top as int];
        let s1 = GameState { deck: crate::state::GhostDeck { top: (deck1.top + 1) as u8, ..deck1 }, ..s };
        match card {
            GhostCard::Room(room) => {
                crate::preservation::lemma_place_ghost_core(s1, room);
            },
            _ => {},
        }
    }
}

} // verus!
