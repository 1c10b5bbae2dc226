//! Every step keeps the state invariant `GameState::wf`, and keeps the revealed
//! jewel numbers true to the hidden ones.
use vstd::prelude::*;

use crate::action::{Action, SymbolFace};
use crate::board::{
    incident, is_room_node, lemma_edge_ends, room_index, spec_other_end, RoomLabel, EDGE_COUNT, NODE_COUNT,
};
use crate::game::{is_initial, jewel_home};
use crate::engine::{
    core_ok, deposited_total, free_room_from, lemma_deposited_total_bound, lemma_deposited_total_update,
    lemma_spuk_total_bounds, lemma_spuk_total_update, room_after, spec_advance_turn, spec_after_roll,
    spec_deposit, spec_fight, spec_move, spec_pickup, spec_place_ghost, spec_resolve_card, spec_shift,
    spuk_total, Draws, StepResult,
};
use crate::rules::{active_pos, carrying, node_at, spec_can_pickup, spec_legal_actions};
use crate::state::{
    has_bit, lemma_has_bit_insert, lemma_has_bit_remove, GameState, JewelId, TurnPhase, JEWEL_COUNT, MAX_FIGURES, MAX_SPUK,
};
use crate::step::{draws_fit, lemma_legal_move_edge, spec_after_draw, spec_apply, spec_settle, spec_step};

verus! {

/// The room found by the search lies on the board and holds no Spuk.
proof fn lemma_free_room(s: GameState, start: int, k: int)
    requires
        0 <= start < 12,
    ensures
        free_room_from(s, start, k) matches Some(r) ==> 0 <= r < 12 && !node_at(s, 24 + r).has_spuk,
    decreases 12 - k,
{
    if 0 <= k < 12 {
        lemma_free_room(s, start, k + 1);
    }
}

/// Placing a ghost keeps the invariant's core and changes nothing but the
/// nodes and the Spuk counter.
pub proof fn lemma_place_ghost_core(s: GameState, room: RoomLabel)
    requires
        core_ok(s),
    ensures
        core_ok(spec_place_ghost(s, room).0),
        spec_place_ghost(s, room).0 == (GameState {
            node_states: spec_place_ghost(s, room).0.node_states,
            spuk_count: spec_place_ghost(s, room).0.spuk_count,
            ..s
        }),
{
    let start = room_index(room);
    lemma_free_room(s, start, 0);
    lemma_spuk_total_bounds(s.node_states@, NODE_COUNT as nat);
    match free_room_from(s, start, 0) {
        None => {},
        Some(r) => {
            let n = 24 + r;
            let ns = node_at(s, n);
            let t = spec_place_ghost(s, room).0;
            lemma_spuk_total_update(s.node_states@, n, t.node_states@[n], NODE_COUNT as nat);
            assert(t.node_states@ == s.node_states@.update(n, t.node_states@[n]));
            assert forall|m: int| 0 <= m < NODE_COUNT implies (#[trigger] t.node_states@[m]).jewel == s.node_states@[m].jewel
                && t.node_states@[m].figures == s.node_states@[m].figures by {}
        },
    }
}

/// Resolving a ghost card, and what follows it in the step, keep the invariant.
pub proof fn lemma_resolve_wf(s: GameState, shuffled: [crate::state::GhostCard; 19], reshuffled: [crate::state::GhostCard; 19])
    requires
        s.wf(),
        !s.game_over,
        s.phase is DrawGhostCard,
    ensures
        spec_after_draw(spec_resolve_card(s, shuffled, reshuffled)).0.wf(),
{
    let deck1 = crate::engine::spec_draw_deck(s, shuffled);
    if deck1.top < deck1.size {
        let card = deck1.cards@[deck1.top as int];
        let s1 = GameState { deck: crate::state::GhostDeck { top: (deck1.top + 1) as u8, ..deck1 }, ..s };
        assert(core_ok(s1));
        match card {
            crate::state::GhostCard::Room(room) => {
                lemma_place_ghost_core(s1, room);
            },
            _ => {},
        }
    }
}

/// The figure bitmasks after a shift agree with the new positions.
proof fn lemma_shift_figures(s: GameState, e: u8)
    requires
        core_ok(s),
        e < EDGE_COUNT,
        incident(active_pos(s), e),
        s.moves_remaining >= 1,
    ensures
        core_ok(spec_shift(s, e)),
{
    let f = s.active_figure;
    let from = active_pos(s);
    lemma_edge_ends(e);
    let dest = spec_other_end(e, from);
    assert(dest != from && 0 <= dest < NODE_COUNT);
    let t = spec_shift(s, e);
    let x_from = node_at(s, from).figures;
    let x_dest = node_at(s, dest).figures;
    lemma_has_bit_remove(x_from, f);
    lemma_has_bit_insert(x_dest, f);
    assert(t.node_states@[from].figures == x_from & !(1u8 << f));
    assert(t.node_states@[dest].figures == x_dest | (1u8 << f));
    assert forall|n: int, i: int| 0 <= n < NODE_COUNT && 0 <= i < 8 implies #[trigger] has_bit(
        t.node_states@[n].figures,
        i,
    ) == (i < t.figure_count && t.figure_pos@[i] == n) by {
        if n == from {
        } else if n == dest {
        } else {
            assert(t.node_states@[n] == s.node_states@[n]);
        }
        if i == f {
            assert(has_bit(s.node_states@[from].figures, i));
        }
    }
    lemma_spuk_total_update(s.node_states@, from, t.node_states@[from], NODE_COUNT as nat);
    let mid = s.node_states@.update(from, t.node_states@[from]);
    lemma_spuk_total_update(mid, dest, t.node_states@[dest], NODE_COUNT as nat);
    assert(t.node_states@ == mid.update(dest, t.node_states@[dest]));
    assert forall|m: int| 0 <= m < NODE_COUNT implies (#[trigger] t.node_states@[m]).jewel == s.node_states@[m].jewel
        && t.node_states@[m].ghosts == s.node_states@[m].ghosts && t.node_states@[m].has_spuk
        == s.node_states@[m].has_spuk by {}
}

/// A move along an edge at the active figure's node keeps the invariant.
pub proof fn lemma_move_wf(s: GameState, e: u8)
    requires
        s.wf(),
        s.phase is Move,
        e < EDGE_COUNT,
        incident(active_pos(s), e),
    ensures
        spec_move(s, e).wf(),
{
    lemma_shift_figures(s, e);
}

/// Depositing keeps the invariant's core.
pub proof fn lemma_deposit_core(s: GameState)
    requires
        core_ok(s),
    ensures
        core_ok(spec_deposit(s)),
{
    let f = s.active_figure as int;
    if let Some(j) = s.figure_carries@[f] {
        let t = spec_deposit(s);
        lemma_deposited_total_update(s.jewel_deposited@, j as int, true, JEWEL_COUNT as nat);
        lemma_deposited_total_bound(s.jewel_deposited@, JEWEL_COUNT as nat);
        assert(t.jewel_deposited@ == s.jewel_deposited@.update(j as int, true));
        assert forall|n: int| 0 <= n < NODE_COUNT implies ((#[trigger] t.node_states@[n]).jewel matches Some(k) ==> k != j) by {
            if t.node_states@[n].jewel == Some(j) {
                assert(s.figure_carries@[f] != Some(j));
            }
        }
        assert forall|g: int| 0 <= g < 4 && g != f implies (#[trigger] t.figure_carries@[g]) != Some(j) by {}
    }
}

/// Picking up the jewel of the active figure's room keeps the invariant's core.
pub proof fn lemma_pickup_core(s: GameState, j: JewelId)
    requires
        core_ok(s),
        spec_can_pickup(s),
        node_at(s, active_pos(s)).jewel == Some(j),
    ensures
        core_ok(spec_pickup(s, j)),
{
    let f = s.active_figure as int;
    let pos = active_pos(s);
    let t = spec_pickup(s, j);
    lemma_spuk_total_update(s.node_states@, pos, t.node_states@[pos], NODE_COUNT as nat);
    assert(t.node_states@ == s.node_states@.update(pos, t.node_states@[pos]));
    assert(t.figure_carries@ == s.figure_carries@.update(f, Some(j)));
    assert forall|g: int| 0 <= g < 4 implies (#[trigger] s.figure_carries@[g]) != Some(j) by {}
}

/// A fight keeps the invariant's core.
pub proof fn lemma_fight_core(s: GameState, a: SymbolFace, b: SymbolFace)
    requires
        core_ok(s),
    ensures
        core_ok(spec_fight(s, a, b)),
{
    let pos = active_pos(s);
    let t = spec_fight(s, a, b);
    lemma_spuk_total_bounds(s.node_states@, NODE_COUNT as nat);
    lemma_spuk_total_update(s.node_states@, pos, t.node_states@[pos], NODE_COUNT as nat);
    assert(t.node_states@ == s.node_states@.update(pos, t.node_states@[pos]));
}

/// The end-of-game check keeps the invariant.
pub proof fn lemma_settle_wf(s: GameState, r: crate::engine::StepResult)
    requires
        s.wf(),
    ensures
        spec_settle(s, r).0.wf(),
{
}

/// A step from a valid state, with a number die showing 1 to 6, leads to a
/// valid state: the invariant holds throughout every game.
pub proof fn lemma_step_keeps_wf(s: GameState, a: Action, d: Draws)
    requires
        s.wf(),
        1 <= d.number <= 6,
    ensures
        spec_step(s, a, d).0.wf(),
{
    if !s.game_over && spec_legal_actions(s).contains(a) {
        let out = spec_apply(s, a, d);
        match s.phase {
            TurnPhase::RollDie => {},
            TurnPhase::DrawGhostCard { .. } => {
                if a == Action::DrawGhostCard {
                    lemma_resolve_wf(s, d.shuffled, d.reshuffled);
                }
            },
            TurnPhase::Move => {
                match a {
                    Action::MoveAlongEdge { edge } => {
                        lemma_legal_move_edge(s, edge);
                        lemma_move_wf(s, edge);
                    },
                    Action::DepositJewel => {
                        lemma_deposit_core(s);
                    },
                    _ => {},
                }
            },
            TurnPhase::PickupJewel => {
                match a {
                    Action::PickupJewel { jewel } => {
                        let acts = spec_legal_actions(s);
                        let k = choose|k: int| 0 <= k < acts.len() && acts[k] == a;
                        assert(spec_can_pickup(s) && !(carrying(s) && active_pos(s) == crate::board::ENTRANCE));
                        lemma_pickup_core(s, jewel);
                    },
                    Action::DepositJewel => {
                        lemma_deposit_core(s);
                    },
                    _ => {},
                }
            },
            TurnPhase::Combat => {
                lemma_fight_core(s, d.die_a, d.die_b);
            },
            TurnPhase::EndTurn => {
                if a == Action::DepositJewel {
                    lemma_deposit_core(s);
                }
            },
        }
        lemma_settle_wf(out.0, out.1);
    }
}

/// Before the end-of-game check, the indices the rule queries read are in range.
pub proof fn lemma_apply_indices(s: GameState, a: Action, d: Draws)
    requires
        s.wf(),
        !s.game_over,
        1 <= d.number <= 6,
    ensures
        spec_legal_actions(s).contains(a) ==> crate::rules::indices_ok(spec_apply(s, a, d).0),
{
    if spec_legal_actions(s).contains(a) {
        lemma_step_keeps_wf(s, a, d);
        let t = spec_apply(s, a, d).0;
        assert(spec_settle(t, spec_apply(s, a, d).1).0.wf());
    }
}

/// Jewels lie only in their home rooms (or are carried or deposited), and a
/// revealed jewel number is the number hidden in that jewel's home room.
pub open spec fn numbers_honest(s: GameState) -> bool {
    &&& forall|n: int|
        0 <= n < NODE_COUNT ==> ((#[trigger] s.node_states@[n]).jewel matches Some(j) ==> j < JEWEL_COUNT && n
            == jewel_home(j as int))
    &&& forall|j: int|
        0 <= j < JEWEL_COUNT ==> #[trigger] s.jewel_number@[j] == 0 || s.jewel_number@[j]
            == s.node_states@[jewel_home(j)].jewel_number
}

/// `t` hides the same numbers as `s` and holds no jewel in a node that `s` did not hold there.
pub open spec fn nodes_keep_jewels(s: GameState, t: GameState) -> bool {
    forall|n: int|
        0 <= n < NODE_COUNT ==> (#[trigger] t.node_states@[n]).jewel_number == s.node_states@[n].jewel_number && (
        t.node_states@[n].jewel is Some ==> t.node_states@[n].jewel == s.node_states@[n].jewel)
}

/// Placing a ghost moves no jewel and hides no new number.
proof fn lemma_place_ghost_keeps(s: GameState, room: RoomLabel)
    ensures
        nodes_keep_jewels(s, spec_place_ghost(s, room).0),
        spec_place_ghost(s, room).0.jewel_number == s.jewel_number,
        same_jewel_places(s, spec_place_ghost(s, room).0),
        spec_place_ghost(s, room).0.spuk_count <= s.spuk_count + 1,
        spec_place_ghost(s, room).0.game_over == s.game_over,
{
    lemma_free_room(s, room_index(room), 0);
    match free_room_from(s, room_index(room), 0) {
        None => {},
        Some(r) => {
            let t = spec_place_ghost(s, room).0;
            assert forall|n: int| 0 <= n < NODE_COUNT implies (#[trigger] t.node_states@[n]).jewel_number
                == s.node_states@[n].jewel_number && t.node_states@[n].jewel == s.node_states@[n].jewel by {
                assert(t.node_states@ == s.node_states@.update(24 + r, t.node_states@[24 + r]));
            }
        },
    }
}

/// Resolving a ghost card moves no jewel and hides no new number.
proof fn lemma_resolve_keeps(s: GameState, d: Draws)
    ensures
        nodes_keep_jewels(s, spec_after_draw(spec_resolve_card(s, d.shuffled, d.reshuffled)).0),
        spec_after_draw(spec_resolve_card(s, d.shuffled, d.reshuffled)).0.jewel_number == s.jewel_number,
        same_jewel_places(s, spec_after_draw(spec_resolve_card(s, d.shuffled, d.reshuffled)).0),
        spec_after_draw(spec_resolve_card(s, d.shuffled, d.reshuffled)).0.spuk_count <= s.spuk_count + 1,
{
    let deck1 = crate::engine::spec_draw_deck(s, d.shuffled);
    if deck1.top < deck1.size {
        let card = deck1.cards@[deck1.top as int];
        let s1 = GameState { deck: crate::state::GhostDeck { top: (deck1.top + 1) as u8, ..deck1 }, ..s };
        match card {
            crate::state::GhostCard::Room(room) => {
                lemma_place_ghost_keeps(s1, room);
            },
            _ => {},
        }
    }
}

/// Revealed jewel numbers are the hidden ones: a step keeps jewels in their
/// home rooms (or in hands, or deposited) and reveals, on entering a room, the
/// number hidden with its jewel.
pub proof fn lemma_step_keeps_numbers_honest(s: GameState, a: Action, d: Draws)
    requires
        s.wf(),
        numbers_honest(s),
    ensures
        numbers_honest(spec_step(s, a, d).0),
{
    let t = spec_step(s, a, d).0;
    if !s.game_over && spec_legal_actions(s).contains(a) {
        match s.phase {
            TurnPhase::DrawGhostCard { .. } => {
                if a == Action::DrawGhostCard {
                    lemma_resolve_keeps(s, d);
                }
            },
            TurnPhase::Move => {
                match a {
                    Action::MoveAlongEdge { edge } => {
                        lemma_legal_move_edge(s, edge);
                        lemma_edge_ends(edge);
                        let sh = spec_shift(s, edge);
                        let dest = spec_other_end(edge, active_pos(s));
                        assert(nodes_keep_jewels(s, sh));
                        assert forall|j: int| 0 <= j < JEWEL_COUNT implies #[trigger] t.jewel_number@[j] == 0
                            || t.jewel_number@[j] == t.node_states@[jewel_home(j)].jewel_number by {
                            if sh.node_states@[dest].jewel == Some(j as u8) {
                                assert(dest == jewel_home(j));
                            }
                            assert(t.node_states@[jewel_home(j)].jewel_number == s.node_states@[jewel_home(
                                j,
                            )].jewel_number);
                        }
                    },
                    _ => {},
                }
            },
            TurnPhase::PickupJewel => {
                match a {
                    Action::PickupJewel { jewel } => {
                        let pos = active_pos(s);
                        let p = spec_pickup(s, jewel);
                        assert(p.node_states@ == s.node_states@.update(pos, p.node_states@[pos]));
                    },
                    _ => {},
                }
            },
            TurnPhase::Combat => {
                let pos = active_pos(s);
                let f = spec_fight(s, d.die_a, d.die_b);
                assert(f.node_states@ == s.node_states@.update(pos, f.node_states@[pos]));
            },
            _ => {},
        }
    }
}

/// A new game hides its numbers honestly: every jewel is at home and none is revealed.
pub proof fn lemma_initial_numbers_honest(s: GameState, v: crate::variant::Variant, fc: u8)
    requires
        is_initial(s, v, fc),
    ensures
        numbers_honest(s),
{
    assert forall|n: int| 0 <= n < NODE_COUNT implies ((#[trigger] s.node_states@[n]).jewel matches Some(j) ==> j
        < JEWEL_COUNT && n == jewel_home(j as int)) by {
        if is_room_node(n) {
            crate::game::lemma_jewel_home(n - 24);
        }
    }
}

/// Jewel `j` lies somewhere: deposited, in a figure's hands, or in a node.
pub open spec fn jewel_placed(s: GameState, j: int) -> bool {
    ||| s.jewel_deposited@[j]
    ||| exists|f: int| 0 <= f < MAX_FIGURES && s.figure_carries@[f] == Some(j as u8)
    ||| exists|n: int| 0 <= n < NODE_COUNT && s.node_states@[n].jewel == Some(j as u8)
}

/// No jewel is ever lost, and no more than six Spuk are ever on the board,
/// six ending the game. With the invariant (`wf`, which keeps every jewel in
/// at most one place) each jewel lies in exactly one place.
pub open spec fn conserved(s: GameState) -> bool {
    &&& forall|j: int| 0 <= j < JEWEL_COUNT ==> #[trigger] jewel_placed(s, j)
    &&& s.spuk_count <= MAX_SPUK
    &&& s.spuk_count == MAX_SPUK ==> s.game_over
}

/// The game's invariant: the state is valid (`wf`: figures where their bits
/// say, fewer than three ghosts per node, the Spuk counter equal to the Spuk on
/// the board, each jewel in at most one place, ...), and every jewel lies
/// somewhere, so in exactly one place, with at most six Spuk.
pub open spec fn sound(s: GameState) -> bool {
    s.wf() && conserved(s)
}

/// Every step keeps the game's invariant, whatever the dice and shuffles give.
pub proof fn lemma_step_keeps_sound(s: GameState, a: Action, d: Draws)
    requires
        sound(s),
        draws_fit(s, d),
    ensures
        sound(spec_step(s, a, d).0),
{
    lemma_step_keeps_wf(s, a, d);
    lemma_step_keeps_conserved(s, a, d);
}

/// `t` keeps every jewel where `s` has it.
pub open spec fn same_jewel_places(s: GameState, t: GameState) -> bool {
    &&& forall|n: int| 0 <= n < NODE_COUNT ==> (#[trigger] t.node_states@[n]).jewel == s.node_states@[n].jewel
    &&& t.figure_carries == s.figure_carries
    &&& t.jewel_deposited == s.jewel_deposited
}

/// Jewels that keep their places stay placed.
proof fn lemma_places_kept(s: GameState, t: GameState)
    requires
        same_jewel_places(s, t),
        forall|j: int| 0 <= j < JEWEL_COUNT ==> #[trigger] jewel_placed(s, j),
    ensures
        forall|j: int| 0 <= j < JEWEL_COUNT ==> #[trigger] jewel_placed(t, j),
{
    assert forall|j: int| 0 <= j < JEWEL_COUNT implies #[trigger] jewel_placed(t, j) by {
        assert(jewel_placed(s, j));
        if exists|f: int| 0 <= f < MAX_FIGURES && s.figure_carries@[f] == Some(j as u8) {
            let f = choose|f: int| 0 <= f < MAX_FIGURES && s.figure_carries@[f] == Some(j as u8);
            assert(t.figure_carries@[f] == Some(j as u8));
        }
        if exists|n: int| 0 <= n < NODE_COUNT && s.node_states@[n].jewel == Some(j as u8) {
            let n = choose|n: int| 0 <= n < NODE_COUNT && s.node_states@[n].jewel == Some(j as u8);
            assert(t.node_states@[n].jewel == Some(j as u8));
        }
    }
}

/// Depositing keeps every jewel placed: the carried one is now deposited.
proof fn lemma_deposit_places(s: GameState)
    requires
        core_ok(s),
        conserved(s),
    ensures
        forall|j: int| 0 <= j < JEWEL_COUNT ==> #[trigger] jewel_placed(spec_deposit(s), j),
{
    let t = spec_deposit(s);
    let f = s.active_figure as int;
    if let Some(c) = s.figure_carries@[f] {
        assert forall|j: int| 0 <= j < JEWEL_COUNT implies #[trigger] jewel_placed(t, j) by {
            assert(jewel_placed(s, j));
            if j == c as int {
                assert(t.jewel_deposited@[j]);
            } else {
                if exists|g: int| 0 <= g < MAX_FIGURES && s.figure_carries@[g] == Some(j as u8) {
                    let g = choose|g: int| 0 <= g < MAX_FIGURES && s.figure_carries@[g] == Some(j as u8);
                    assert(t.figure_carries@[g] == Some(j as u8));
                }
                if exists|n: int| 0 <= n < NODE_COUNT && s.node_states@[n].jewel == Some(j as u8) {
                    let n = choose|n: int| 0 <= n < NODE_COUNT && s.node_states@[n].jewel == Some(j as u8);
                    assert(t.node_states@[n].jewel == Some(j as u8));
                }
            }
        }
    } else {
        assert(same_jewel_places(s, t));
        lemma_places_kept(s, t);
    }
}

/// Picking up the jewel of the active figure's room keeps every jewel placed:
/// the picked one is now in the figure's hands.
proof fn lemma_pickup_places(s: GameState, c: JewelId)
    requires
        core_ok(s),
        conserved(s),
        !carrying(s),
        node_at(s, active_pos(s)).jewel == Some(c),
    ensures
        forall|j: int| 0 <= j < JEWEL_COUNT ==> #[trigger] jewel_placed(spec_pickup(s, c), j),
{
    let t = spec_pickup(s, c);
    let f = s.active_figure as int;
    let pos = active_pos(s);
    assert(t.node_states@ == s.node_states@.update(pos, t.node_states@[pos]));
    assert forall|j: int| 0 <= j < JEWEL_COUNT implies #[trigger] jewel_placed(t, j) by {
        assert(jewel_placed(s, j));
        if j == c as int {
            assert(t.figure_carries@[f] == Some(j as u8));
        } else {
            if exists|g: int| 0 <= g < MAX_FIGURES && s.figure_carries@[g] == Some(j as u8) {
                let g = choose|g: int| 0 <= g < MAX_FIGURES && s.figure_carries@[g] == Some(j as u8);
                assert(t.figure_carries@[g] == Some(j as u8));
            }
            if exists|n: int| 0 <= n < NODE_COUNT && s.node_states@[n].jewel == Some(j as u8) {
                let n = choose|n: int| 0 <= n < NODE_COUNT && s.node_states@[n].jewel == Some(j as u8);
                assert(t.node_states@[n].jewel == Some(j as u8));
            }
        }
    }
}

/// No jewel is ever lost and the Spuk never outnumber six: a step keeps both.
#[verifier::spinoff_prover]
#[verifier::rlimit(40)]
pub proof fn lemma_step_keeps_conserved(s: GameState, a: Action, d: Draws)
    requires
        s.wf(),
        conserved(s),
    ensures
        conserved(spec_step(s, a, d).0),
{
    if !s.game_over {
        let legal = spec_legal_actions(s).contains(a);
        let t = if legal {
            spec_apply(s, a, d).0
        } else {
            s
        };
        assert(spec_step(s, a, d).0 == spec_settle(t, if legal {
            spec_apply(s, a, d).1
        } else {
            StepResult::IllegalAction
        }).0);
        if legal {
            lemma_apply_conserves(s, a, d);
        }
        assert(forall|j: int| 0 <= j < JEWEL_COUNT ==> #[trigger] jewel_placed(t, j));
        assert(t.spuk_count <= s.spuk_count + 1);
        let u = spec_step(s, a, d).0;
        if t.spuk_count == MAX_SPUK {
            assert(crate::rules::spec_is_loss(t));
        }
        assert(same_jewel_places(t, u));
        lemma_places_kept(t, u);
    }
}

/// A legal action, before the end of the game is checked, loses no jewel and
/// adds at most one Spuk.
proof fn lemma_apply_conserves(s: GameState, a: Action, d: Draws)
    requires
        s.wf(),
        conserved(s),
        !s.game_over,
        spec_legal_actions(s).contains(a),
    ensures
        forall|j: int| 0 <= j < JEWEL_COUNT ==> #[trigger] jewel_placed(spec_apply(s, a, d).0, j),
        spec_apply(s, a, d).0.spuk_count <= s.spuk_count + 1,
{
    let t = spec_apply(s, a, d).0;
    let pos = active_pos(s);
    match s.phase {
        TurnPhase::DrawGhostCard { .. } => {
            let acts = spec_legal_actions(s);
            let k = choose|k: int| 0 <= k < acts.len() && acts[k] == a;
            assert(a == Action::DrawGhostCard);
            lemma_resolve_keeps(s, d);
            assert(t == spec_after_draw(spec_resolve_card(s, d.shuffled, d.reshuffled)).0);
            lemma_places_kept(s, t);
        },
        TurnPhase::Move => {
            match a {
                Action::MoveAlongEdge { edge } => {
                    lemma_legal_move_edge(s, edge);
                    lemma_edge_ends(edge);
                    let sh = spec_shift(s, edge);
                    assert(same_jewel_places(s, sh));
                    assert(same_jewel_places(s, t));
                    lemma_places_kept(s, t);
                },
                Action::DepositJewel => {
                    lemma_deposit_places(s);
                    lemma_places_kept(spec_deposit(s), t);
                },
                _ => {
                    lemma_places_kept(s, t);
                },
            }
        },
        TurnPhase::PickupJewel => {
            match a {
                Action::PickupJewel { jewel } => {
                    let acts = spec_legal_actions(s);
                    let k = choose|k: int| 0 <= k < acts.len() && acts[k] == a;
                    assert(spec_can_pickup(s) && !(carrying(s) && pos == crate::board::ENTRANCE));
                    lemma_pickup_places(s, jewel);
                    lemma_places_kept(spec_pickup(s, jewel), t);
                },
                Action::DepositJewel => {
                    lemma_deposit_places(s);
                    lemma_places_kept(spec_deposit(s), t);
                },
                _ => {
                    lemma_places_kept(s, t);
                },
            }
        },
        TurnPhase::Combat => {
            if a == Action::Fight {
                let fo = spec_fight(s, d.die_a, d.die_b);
                crate::engine::lemma_spuk_total_bounds(s.node_states@, NODE_COUNT as nat);
                assert(fo.node_states@ == s.node_states@.update(pos, fo.node_states@[pos]));
                assert(same_jewel_places(s, t));
            }
            lemma_places_kept(s, t);
        },
        TurnPhase::EndTurn => {
            if a == Action::DepositJewel {
                lemma_deposit_places(s);
                lemma_places_kept(spec_deposit(s), t);
            } else {
                lemma_places_kept(s, t);
            }
        },
        TurnPhase::RollDie => {
            lemma_places_kept(s, t);
        },
    }
}

/// A new game has every jewel in its room and no Spuk.
pub proof fn lemma_initial_conserved(s: GameState, v: crate::variant::Variant, fc: u8)
    requires
        is_initial(s, v, fc),
    ensures
        conserved(s),
{
    crate::game::lemma_starting_rooms();
    assert forall|j: int| 0 <= j < JEWEL_COUNT implies #[trigger] jewel_placed(s, j) by {
        let n = jewel_home(j);
        assert(s.node_states@[n].jewel == Some(j as u8));
    }
}

} // verus!
