//! What the end of the game, a fight, the door cards and the legal fight
//! action mean, stated over the state's fields.
use vstd::prelude::*;

use crate::action::{Action, SymbolFace};
use crate::board::{incident, is_room_node, room_index, spec_edge, spec_other_end, DoorColor, RoomLabel, EDGE_COUNT, ENTRANCE, NODE_COUNT};
use crate::engine::{free_room_from, spec_draw_deck, spec_fight, spec_place_ghost, spec_resolve_card, Draws, StepResult};
use crate::rules::{active_pos, carrying, edge_open, node_at, open_edges, spec_is_loss, spec_is_win, spec_legal_actions};
use crate::state::{popcount, GameState, GhostCard, TurnPhase, GHOST_DECK_CAPACITY, JEWEL_COUNT, MAX_SPUK};
use crate::step::spec_step;

verus! {

/// A won position has every jewel deposited and every figure of the game back
/// at the entrance: a figure elsewhere means the game goes on.
pub proof fn lemma_win_needs_everyone_home(s: GameState)
    requires
        spec_is_win(s),
    ensures
        forall|j: int| 0 <= j < JEWEL_COUNT ==> #[trigger] s.jewel_deposited@[j],
        forall|i: int| 0 <= i < s.figure_count ==> #[trigger] s.figure_pos@[i] == ENTRANCE,
{
}

/// A step of a running game answers `Win` only when, afterwards, every jewel is
/// deposited and every figure stands at the entrance.
pub proof fn lemma_step_win_needs_everyone_home(s: GameState, a: Action, d: Draws)
    requires
        !s.game_over,
        spec_step(s, a, d).1 == StepResult::Win,
    ensures
        forall|j: int| 0 <= j < JEWEL_COUNT ==> #[trigger] spec_step(s, a, d).0.jewel_deposited@[j],
        forall|i: int|
            0 <= i < spec_step(s, a, d).0.figure_count ==> #[trigger] spec_step(s, a, d).0.figure_pos@[i]
                == ENTRANCE,
        spec_step(s, a, d).0.game_over,
        spec_step(s, a, d).0.players_won,
{
    lemma_apply_never_wins(s, a, d);
}

/// Applying an action never itself answers `Win`; only the end-of-game check does.
proof fn lemma_apply_never_wins(s: GameState, a: Action, d: Draws)
    ensures
        crate::step::spec_apply(s, a, d).1 != StepResult::Win,
{
}

/// With company in the room and a Spuk there, a Spuk face on either symbol die
/// removes the Spuk and lowers the Spuk count by one.
pub proof fn lemma_fight_spuk_face(s: GameState, a: SymbolFace, b: SymbolFace)
    requires
        s.wf(),
        popcount(node_at(s, active_pos(s)).figures) >= 2,
        node_at(s, active_pos(s)).has_spuk,
        a == SymbolFace::Spuk || b == SymbolFace::Spuk,
    ensures
        !node_at(spec_fight(s, a, b), active_pos(s)).has_spuk,
        spec_fight(s, a, b).spuk_count == s.spuk_count - 1,
        node_at(spec_fight(s, a, b), active_pos(s)).ghosts == node_at(s, active_pos(s)).ghosts,
{
    crate::engine::lemma_spuk_total_bounds(s.node_states@, crate::board::NODE_COUNT as nat);
}

/// With company in the room, a fight does not depend on which die shows which face.
pub proof fn lemma_fight_dice_commute(s: GameState, a: SymbolFace, b: SymbolFace)
    requires
        popcount(node_at(s, active_pos(s)).figures) >= 2,
    ensures
        spec_fight(s, a, b) == spec_fight(s, b, a),
{
}

/// With company in the room and no Spuk, a ghost face on either die removes
/// one ghost, if there is one.
pub proof fn lemma_fight_ghost_face(s: GameState, a: SymbolFace, b: SymbolFace)
    requires
        crate::rules::active_on_board(s),
        popcount(node_at(s, active_pos(s)).figures) >= 2,
        !node_at(s, active_pos(s)).has_spuk,
        node_at(s, active_pos(s)).ghosts > 0,
        a == SymbolFace::GhostFace || b == SymbolFace::GhostFace,
    ensures
        node_at(spec_fight(s, a, b), active_pos(s)).ghosts == node_at(s, active_pos(s)).ghosts - 1,
        spec_fight(s, a, b).spuk_count == s.spuk_count,
{
}

/// In the combat phase of a running game, fighting is offered exactly when the
/// active figure stands in a room holding a ghost or a Spuk.
pub proof fn lemma_fight_offered(s: GameState)
    requires
        !s.game_over,
        s.phase is Combat,
    ensures
        spec_legal_actions(s).contains(Action::Fight) <==> (is_room_node(active_pos(s)) && (node_at(
            s,
            active_pos(s),
        ).ghosts > 0 || node_at(s, active_pos(s)).has_spuk)),
{
    let legal = spec_legal_actions(s);
    if is_room_node(active_pos(s)) && (node_at(s, active_pos(s)).ghosts > 0 || node_at(s, active_pos(s)).has_spuk) {
        assert(legal[0] == Action::Fight);
    } else {
        assert(legal =~= seq![Action::SkipCombat]);
        if legal.contains(Action::Fight) {
            let k = choose|k: int| 0 <= k < legal.len() && legal[k] == Action::Fight;
            assert(legal[k] == Action::SkipCombat);
        }
    }
}

/// The card a ghost-card draw resolves: the top of the deck, after reshuffling
/// an empty one.
pub open spec fn card_drawn(s: GameState, shuffled: [GhostCard; GHOST_DECK_CAPACITY]) -> Option<GhostCard> {
    let deck = spec_draw_deck(s, shuffled);
    if deck.top < deck.size {
        Some(deck.cards@[deck.top as int])
    } else {
        None
    }
}

/// Drawing a door card closes exactly the doors of its color (green for the
/// green card, blue for the blue one) and leaves every other edge as it was.
pub proof fn lemma_door_card_closes_its_color(
    s: GameState,
    shuffled: [GhostCard; GHOST_DECK_CAPACITY],
    reshuffled: [GhostCard; GHOST_DECK_CAPACITY],
    c: DoorColor,
)
    requires
        (c == DoorColor::Green && card_drawn(s, shuffled) == Some(GhostCard::GreenDoors)) || (c == DoorColor::Blue
            && card_drawn(s, shuffled) == Some(GhostCard::BlueDoors)),
    ensures
        forall|e: int|
            0 <= e < EDGE_COUNT ==> (#[trigger] spec_resolve_card(s, shuffled, reshuffled).edge_states@[e]).closed == (
            s.edge_states@[e].closed || spec_edge(e as u8).color == c),
{
    let es = crate::board::edges_of_color(c);
    crate::board::lemma_colored_upto(c, EDGE_COUNT as nat);
    crate::engine::lemma_close_all(s.edge_states, es);
    assert forall|e: int| 0 <= e < EDGE_COUNT implies (#[trigger] spec_resolve_card(
        s,
        shuffled,
        reshuffled,
    ).edge_states@[e]).closed == (s.edge_states@[e].closed || spec_edge(e as u8).color == c) by {
        if es.contains(e as u8) {
            let k = choose|k: int| 0 <= k < es.len() && es[k] == e as u8;
            assert(spec_edge(es[k]).color == c);
        }
        if spec_edge(e as u8).color == c {
            assert(es.contains(e as u8));
        }
    }
}

/// Six Spuk on the board lose the game.
pub proof fn lemma_six_spuk_lose(s: GameState)
    requires
        s.spuk_count >= MAX_SPUK,
    ensures
        spec_is_loss(s),
{
}

/// Alone in a room, a figure rolls one symbol die: a ghost face on it removes
/// one ghost, if there is one; a Spuk is never removed.
pub proof fn lemma_fight_alone(s: GameState, a: SymbolFace, b: SymbolFace)
    requires
        crate::rules::active_on_board(s),
        popcount(node_at(s, active_pos(s)).figures) < 2,
    ensures
        node_at(spec_fight(s, a, b), active_pos(s)).has_spuk == node_at(s, active_pos(s)).has_spuk,
        spec_fight(s, a, b).spuk_count == s.spuk_count,
        node_at(spec_fight(s, a, b), active_pos(s)).ghosts == if a == SymbolFace::GhostFace && node_at(
            s,
            active_pos(s),
        ).ghosts > 0 {
            node_at(s, active_pos(s)).ghosts - 1
        } else {
            node_at(s, active_pos(s)).ghosts as int
        },
{
}

/// Looking from the `k`-th room after `start` on, the search for a room
/// without a Spuk stops at the first one (`m` rooms after `start`), passing
/// only rooms with a Spuk; it finds none when all the rest hold a Spuk.
proof fn lemma_free_room_from(s: GameState, start: int, k: int) -> (m: int)
    requires
        0 <= start < 12,
        0 <= k <= 12,
    ensures
        free_room_from(s, start, k) matches Some(r) ==> {
            &&& k <= m < 12
            &&& r == (start + m) % 12
            &&& !node_at(s, 24 + r).has_spuk
            &&& forall|j: int| k <= j < m ==> #[trigger] node_at(s, 24 + (start + j) % 12).has_spuk
        },
        free_room_from(s, start, k) is None ==> forall|j: int|
            k <= j < 12 ==> #[trigger] node_at(s, 24 + (start + j) % 12).has_spuk,
    decreases 12 - k,
{
    if k >= 12 {
        k
    } else if !node_at(s, 24 + (start + k) % 12).has_spuk {
        k
    } else {
        lemma_free_room_from(s, start, k + 1)
    }
}

/// A ghost for a card naming `room` goes to the first room from `room` on,
/// alphabetically and after L back to A, that holds no Spuk: `m` rooms on,
/// every room passed holding a Spuk. There a third ghost becomes a Spuk
/// (the ghosts leave and the Spuk count grows by one); otherwise the room
/// gets one more ghost. No other node changes. When every room holds a Spuk,
/// nothing changes.
pub proof fn lemma_ghost_goes_to_first_room_without_spuk(s: GameState, room: RoomLabel) -> (m: int)
    requires
        s.spuk_count < 255,
    ensures
        ({
            let t = spec_place_ghost(s, room).0;
            let st = room_index(room);
            if exists|j: int| 0 <= j < 12 && !#[trigger] node_at(s, 24 + (st + j) % 12).has_spuk {
                let n = 24 + (st + m) % 12;
                &&& 0 <= m < 12
                &&& !node_at(s, n).has_spuk
                &&& forall|j: int| 0 <= j < m ==> #[trigger] node_at(s, 24 + (st + j) % 12).has_spuk
                &&& forall|o: int| 0 <= o < NODE_COUNT && o != n ==> #[trigger] node_at(t, o) == node_at(s, o)
                &&& node_at(t, n).jewel == node_at(s, n).jewel
                &&& node_at(t, n).figures == node_at(s, n).figures
                &&& if node_at(s, n).ghosts >= 2 {
                    &&& node_at(t, n).ghosts == 0
                    &&& node_at(t, n).has_spuk
                    &&& t.spuk_count == s.spuk_count + 1
                } else {
                    &&& node_at(t, n).ghosts == node_at(s, n).ghosts + 1
                    &&& !node_at(t, n).has_spuk
                    &&& t.spuk_count == s.spuk_count
                }
            } else {
                t == s
            }
        }),
{
    let st = room_index(room);
    let m = lemma_free_room_from(s, st, 0);
    if exists|j: int| 0 <= j < 12 && !#[trigger] node_at(s, 24 + (st + j) % 12).has_spuk {
        assert(free_room_from(s, st, 0) is Some);
        let n = 24 + (st + m) % 12;
        let t = spec_place_ghost(s, room).0;
        assert(free_room_from(s, st, 0) == Some((st + m) % 12));
        assert forall|o: int| 0 <= o < NODE_COUNT && o != n implies #[trigger] node_at(t, o) == node_at(s, o) by {}
    }
    m
}

/// Rolling the number die in a running game: the roll sets the moves; below
/// six a ghost card is drawn first, a six goes straight to moving.
pub proof fn lemma_roll_step(s: GameState, d: Draws)
    requires
        !s.game_over,
        s.phase is RollDie,
    ensures
        spec_step(s, Action::RollDie, d).0.die_roll == d.number,
        spec_step(s, Action::RollDie, d).0.moves_remaining == d.number,
        d.number < 6 ==> spec_step(s, Action::RollDie, d).0.phase == (TurnPhase::DrawGhostCard { cards_remaining: 1 }),
        d.number >= 6 ==> spec_step(s, Action::RollDie, d).0.phase == TurnPhase::Move,
        spec_step(s, Action::RollDie, d).0.active_figure == s.active_figure,
{
    assert(spec_legal_actions(s)[0] == Action::RollDie);
}

/// Ending the turn in a running game passes the turn to the next figure,
/// after the last back to the first, which then rolls; no figure moves.
pub proof fn lemma_end_turn_step(s: GameState, d: Draws)
    requires
        !s.game_over,
        s.phase is EndTurn,
        s.figure_count > 0,
    ensures
        spec_step(s, Action::EndTurn, d).0.active_figure == (s.active_figure + 1) % (s.figure_count as int),
        spec_step(s, Action::EndTurn, d).0.phase == TurnPhase::RollDie,
        spec_step(s, Action::EndTurn, d).0.figure_pos == s.figure_pos,
        spec_step(s, Action::EndTurn, d).0.figure_carries == s.figure_carries,
{
    let legal = spec_legal_actions(s);
    assert(legal[legal.len() - 1] == Action::EndTurn);
}

/// Depositing: the jewel the active figure carries is deposited and its hands
/// are empty; no other jewel changes its deposited flag and no node changes.
pub proof fn lemma_deposit_step(s: GameState, d: Draws)
    requires
        s.wf(),
        !s.game_over,
        spec_legal_actions(s).contains(Action::DepositJewel),
    ensures
        ({
            let t = spec_step(s, Action::DepositJewel, d).0;
            let f = s.active_figure as int;
            &&& s.figure_carries@[f] is Some
            &&& t.jewel_deposited@[s.figure_carries@[f].unwrap() as int]
            &&& t.figure_carries@[f] is None
            &&& forall|j: int|
                0 <= j < JEWEL_COUNT && j != s.figure_carries@[f].unwrap() ==> #[trigger] t.jewel_deposited@[j]
                    == s.jewel_deposited@[j]
            &&& t.node_states == s.node_states
            &&& t.figure_pos == s.figure_pos
        }),
{
    let legal = spec_legal_actions(s);
    let k = choose|k: int| 0 <= k < legal.len() && legal[k] == Action::DepositJewel;
    assert(carrying(s) && active_pos(s) == ENTRANCE);
}

/// Picking up jewel `j`: it lay in the active figure's room; now the room is
/// empty of it and the figure carries it.
pub proof fn lemma_pickup_step(s: GameState, j: u8, d: Draws)
    requires
        s.wf(),
        !s.game_over,
        spec_legal_actions(s).contains(Action::PickupJewel { jewel: j }),
    ensures
        ({
            let t = spec_step(s, Action::PickupJewel { jewel: j }, d).0;
            let f = s.active_figure as int;
            let pos = active_pos(s);
            &&& is_room_node(pos)
            &&& node_at(s, pos).jewel == Some(j)
            &&& s.figure_carries@[f] is None
            &&& node_at(t, pos).jewel is None
            &&& t.figure_carries@[f] == Some(j)
            &&& t.phase == TurnPhase::Combat
            &&& t.jewel_deposited == s.jewel_deposited
        }),
{
    let legal = spec_legal_actions(s);
    let k = choose|k: int| 0 <= k < legal.len() && legal[k] == Action::PickupJewel { jewel: j };
    assert(s.phase is PickupJewel);
}

/// The edges `open_edges` keeps are open ones of the list.
proof fn lemma_open_edges_open(s: GameState, es: Seq<u8>)
    ensures
        forall|i: int|
            0 <= i < open_edges(s, es).len() ==> es.contains(#[trigger] open_edges(s, es)[i]) && edge_open(
                s,
                open_edges(s, es)[i],
            ),
    decreases es.len(),
{
    if es.len() > 0 {
        lemma_open_edges_open(s, es.drop_last());
        let prev = open_edges(s, es.drop_last());
        assert forall|i: int| 0 <= i < open_edges(s, es).len() implies es.contains(#[trigger] open_edges(s, es)[i])
            && edge_open(s, open_edges(s, es)[i]) by {
            if i < prev.len() {
                let x = prev[i];
                let k = choose|k: int| 0 <= k < es.drop_last().len() && es.drop_last()[k] == x;
                assert(es[k] == x);
            } else {
                assert(es[es.len() - 1] == es.last());
            }
        }
    }
}

/// A legal move follows an open edge touching the active figure's node, never
/// out of a Spuk room while carrying a jewel; the figure ends at the edge's
/// other end with one move fewer left.
pub proof fn lemma_move_step(s: GameState, e: u8, d: Draws)
    requires
        s.wf(),
        !s.game_over,
        spec_legal_actions(s).contains(Action::MoveAlongEdge { edge: e }),
    ensures
        e < EDGE_COUNT,
        incident(active_pos(s), e),
        !s.edge_states@[e as int].closed,
        !(carrying(s) && node_at(s, active_pos(s)).has_spuk),
        spec_step(s, Action::MoveAlongEdge { edge: e }, d).0.figure_pos@[s.active_figure as int] == spec_other_end(
            e,
            active_pos(s),
        ),
        spec_step(s, Action::MoveAlongEdge { edge: e }, d).0.moves_remaining == s.moves_remaining - 1,
{
    let legal = spec_legal_actions(s);
    let k = choose|k: int| 0 <= k < legal.len() && legal[k] == Action::MoveAlongEdge { edge: e };
    assert(s.phase is Move);
    crate::step::lemma_legal_move_edge(s, e);
    let re = crate::rules::spec_reachable_edges(s);
    let i = choose|i: int| 0 <= i < re.len() && re[i] == e;
    lemma_open_edges_open(s, crate::board::edges_at(active_pos(s)));
    crate::board::lemma_edge_ends(e);
}

} // verus!
