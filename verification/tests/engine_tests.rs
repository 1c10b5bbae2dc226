use ggs::action::Action;
use ggs::board::{build_adjacency, node_kind, room_node, NodeKind, RoomLabel, ENTRANCE, H1, ROOM_A, ROOM_B, ROOM_C};
use ggs::engine::GameResult;
use ggs::game::Game;
use ggs::log_format::LogError;
use ggs::observation::PlayerView;
use ggs::rules;
use ggs::simulation::{replay, simulate_one_game_logged, GameLog};
use ggs::state::{GhostCard, TurnPhase};
use ggs::strategy::Strategy;
use ggs::variant::Variant;

#[derive(Clone)]
struct FirstActionStrategy;

impl Strategy for FirstActionStrategy {
    fn choose_action(&mut self, view: &PlayerView) -> Action {
        view.legal_actions[0]
    }
}

fn make_game(seed: u64) -> Game {
    Game::new(seed, Variant::base(), 4)
}

#[test]
fn replay_matches_original() {
    for seed in 0u64..20 {
        let mut strats = vec![FirstActionStrategy; 4];
        let (original, log) = simulate_one_game_logged(seed, Variant::base(), 4, &mut strats);
        let replayed = replay(&log);
        assert_eq!(original, replayed, "seed={seed}: replay result differs from original");
    }
}

#[test]
fn log_roundtrip() {
    let mut strats = vec![FirstActionStrategy; 4];
    let (_, log) = simulate_one_game_logged(42, Variant::base(), 4, &mut strats);
    let bytes = log.to_bytes();
    let loaded = GameLog::from_bytes(&bytes).expect("load failed");
    assert_eq!(log.seed, loaded.seed);
    assert_eq!(log.figure_count, loaded.figure_count);
    assert_eq!(log.variant, loaded.variant);
    assert_eq!(log.actions, loaded.actions);
    let replayed = replay(&loaded);
    let mut strats2 = vec![FirstActionStrategy; 4];
    let (original, _) = simulate_one_game_logged(42, Variant::base(), 4, &mut strats2);
    assert_eq!(original, replayed);
}

// --- Deck composition ---

#[test]
fn base_deck_has_13_cards() {
    let game = make_game(0);
    assert_eq!(game.state.deck.size, 13);
}

#[test]
fn advanced_deck_has_19_cards() {
    let game = Game::new(0, Variant::advanced(), 4);
    assert_eq!(game.state.deck.size, 19);
}

#[test]
fn base_deck_has_no_advanced_cards() {
    let game = make_game(0);
    let cards = &game.state.deck.cards[..game.state.deck.size as usize];
    for card in cards {
        assert!(
            !matches!(
                card,
                GhostCard::DrawTwo | GhostCard::DrawThree | GhostCard::BlueDoors | GhostCard::GreenDoors
            ),
            "base deck should not contain advanced card: {card:?}"
        );
    }
}

// --- Setup correctness ---

#[test]
fn starting_ghosts_in_correct_rooms() {
    let game = make_game(0);
    for &room in &RoomLabel::STARTS_WITH_GHOST {
        let ns = &game.state.node_states[room_node(room) as usize];
        assert_eq!(ns.ghosts, 1, "room {room:?} should start with 1 ghost");
    }
}

#[test]
fn starting_jewels_in_correct_rooms() {
    let game = make_game(0);
    for &room in &RoomLabel::STARTS_WITH_JEWEL {
        let ns = &game.state.node_states[room_node(room) as usize];
        assert!(ns.jewel.is_some(), "room {room:?} should start with a jewel");
    }
}

// --- Ghost overflow: redirect to next alphabetical room ---

#[test]
fn ghost_skips_spuk_room_and_goes_to_next() {
    let mut game = make_game(0);
    // Force room A into Spuk state.
    game.state.node_states[ROOM_A as usize].ghosts = 0;
    game.state.node_states[ROOM_A as usize].has_spuk = true;
    game.state.spuk_count = 1;
    // Place a ghost targeting room A — should redirect to B.
    game.place_ghost_in(RoomLabel::A);
    assert_eq!(game.state.node_states[ROOM_A as usize].ghosts, 0, "A should still have 0 ghosts");
    assert_eq!(game.state.node_states[ROOM_B as usize].ghosts, 1, "ghost should land in B");
}

#[test]
fn ghost_wraps_from_l_to_a() {
    let mut game = make_game(0);
    // Spuk all rooms B–L, leave A free.
    for room in [
        RoomLabel::B,
        RoomLabel::C,
        RoomLabel::D,
        RoomLabel::E,
        RoomLabel::F,
        RoomLabel::G,
        RoomLabel::H,
        RoomLabel::I,
        RoomLabel::J,
        RoomLabel::K,
        RoomLabel::L,
    ] {
        game.state.node_states[room_node(room) as usize].has_spuk = true;
    }
    game.state.spuk_count = 11;
    game.state.node_states[ROOM_A as usize].has_spuk = false;
    game.state.node_states[ROOM_A as usize].ghosts = 0;
    // Place ghost targeting L — should wrap around and land in A.
    game.place_ghost_in(RoomLabel::L);
    assert_eq!(game.state.node_states[ROOM_A as usize].ghosts, 1, "ghost should wrap to A");
}

// --- Loss condition: 6 Spuk ---

#[test]
fn six_spuk_triggers_loss() {
    let mut game = make_game(0);
    game.state.spuk_count = 5;
    // Place 3 ghosts in room C (which starts with 1) to trigger the 6th Spuk.
    game.state.node_states[ROOM_C as usize].ghosts = 2;
    game.place_ghost_in(RoomLabel::C);
    assert!(rules::is_loss(&game.state));
}

// --- Hallway pass-through ---

#[test]
fn can_move_into_occupied_hallway() {
    let mut game = make_game(0);
    // Place figure 1 at H1 so figure 0 can move through it.
    game.state.node_states[ENTRANCE as usize].remove_figure(1);
    game.state.node_states[H1 as usize].add_figure(1);
    game.state.figure_pos[1] = H1;
    // Set up figure 0 to be in Move phase at entrance.
    game.state.active_figure = 0;
    game.state.phase = TurnPhase::Move;
    game.state.moves_remaining = 3;
    let actions = game.legal_actions();
    // Edge 0 connects Entrance→H1; H1 is occupied but should still be reachable.
    assert!(
        actions.iter().any(|a| matches!(a, Action::MoveAlongEdge { edge: 0 })),
        "should be able to move into occupied hallway cell H1"
    );
}

#[test]
fn cannot_stop_on_occupied_hallway() {
    let mut game = make_game(0);
    // Move figure 0 to H1, occupy H1 with figure 1 too.
    game.state.node_states[ENTRANCE as usize].remove_figure(0);
    game.state.node_states[ENTRANCE as usize].remove_figure(1);
    game.state.node_states[H1 as usize].add_figure(0);
    game.state.node_states[H1 as usize].add_figure(1);
    game.state.figure_pos[0] = H1;
    game.state.figure_pos[1] = H1;
    game.state.active_figure = 0;
    game.state.phase = TurnPhase::Move;
    game.state.moves_remaining = 3;
    let actions = game.legal_actions();
    assert!(
        !actions.contains(&Action::StopMoving),
        "StopMoving should be illegal when on an occupied hallway cell"
    );
}

// --- Spuk-trap ---

#[test]
fn figure_with_jewel_cannot_leave_spuk_room() {
    let mut game = make_game(0);
    // Put figure 0 in room A carrying a jewel, and add Spuk to room A.
    game.state.node_states[ENTRANCE as usize].remove_figure(0);
    game.state.node_states[ROOM_A as usize].add_figure(0);
    game.state.node_states[ROOM_A as usize].has_spuk = true;
    game.state.node_states[ROOM_A as usize].jewel = None;
    game.state.figure_pos[0] = ROOM_A;
    game.state.figure_carries[0] = Some(0);
    game.state.spuk_count = 1;
    game.state.active_figure = 0;
    game.state.phase = TurnPhase::Move;
    game.state.moves_remaining = 3;
    let actions = game.legal_actions();
    assert!(
        !actions.iter().any(|a| matches!(a, Action::MoveAlongEdge { .. })),
        "figure carrying a jewel should have no move edges out of a Spuk room"
    );
}

// --- Jewel number revelation (advanced variant) ---

#[test]
fn jewel_number_hidden_before_entering_room() {
    let game = Game::new(0, Variant::advanced(), 4);
    // At setup, all jewel numbers should be 0 (unrevealed) in GameState.jewel_number.
    assert!(
        game.state.jewel_number.iter().all(|&n| n == 0),
        "jewel numbers should all be hidden at start"
    );
}

#[test]
fn jewel_number_revealed_on_room_entry() {
    let mut game = Game::new(0, Variant::advanced(), 4);
    // The first jewel room still holds its jewel.
    let target_room = RoomLabel::STARTS_WITH_JEWEL[0];
    let target_node = room_node(target_room);
    let jewel_id = game.state.node_states[target_node as usize].jewel.unwrap();
    let true_number = game.state.node_states[target_node as usize].jewel_number;
    assert!(true_number > 0, "hidden number should be set at setup");
    // Place figure 0 on a hallway next to the room and move it in through the engine.
    let adjacency = build_adjacency();
    let entry_edge = adjacency
        .edges_of(target_node)
        .iter()
        .copied()
        .find(|&e| {
            let other = adjacency.other_end(e, target_node);
            matches!(node_kind(other), NodeKind::Hallway)
        })
        .expect("room must have a hallway neighbor");
    let hallway = adjacency.other_end(entry_edge, target_node);
    game.state.node_states[ENTRANCE as usize].remove_figure(0);
    game.state.node_states[hallway as usize].add_figure(0);
    game.state.figure_pos[0] = hallway;
    game.state.active_figure = 0;
    game.state.phase = TurnPhase::Move;
    game.state.moves_remaining = 1;
    game.step(Action::MoveAlongEdge { edge: entry_edge });
    assert_eq!(
        game.state.jewel_number[jewel_id as usize], true_number,
        "jewel number should be revealed after entering the room"
    );
}

// --- PlayerView hides unrevealed jewel numbers ---

#[test]
fn player_view_hides_unrevealed_jewel_numbers() {
    let game = Game::new(0, Variant::advanced(), 4);
    let legal = game.legal_actions();
    let view = PlayerView::from_state(&game.state, 0, &legal);
    for ns in &view.node_states {
        assert_eq!(ns.jewel_number, 0, "node_states in PlayerView must never expose hidden jewel numbers");
    }
}

// --- Log format errors ---

#[test]
fn truncated_log_is_refused() {
    let mut strats = vec![FirstActionStrategy; 4];
    let (_, log) = simulate_one_game_logged(7, Variant::base(), 4, &mut strats);
    let bytes = log.to_bytes();
    assert_eq!(GameLog::from_bytes(&bytes[..13]).unwrap_err(), LogError::UnexpectedEnd);
    assert_eq!(GameLog::from_bytes(&bytes[..bytes.len() - 1]).unwrap_err(), LogError::UnexpectedEnd);
}

#[test]
fn unknown_action_tag_is_refused() {
    let mut bytes = vec![0u8; 14];
    bytes[8] = 4;
    bytes[10] = 1; // one action
    bytes.push(0x0a);
    assert_eq!(GameLog::from_bytes(&bytes).unwrap_err(), LogError::UnknownTag(0x0a));
}

#[test]
fn log_bytes_follow_the_format() {
    let log = GameLog {
        seed: 0x0102030405060708,
        variant: Variant { draw_two_card: true, draw_three_card: false, door_cards: true, numbered_jewels: false },
        figure_count: 3,
        actions: vec![
            Action::RollDie,
            Action::MoveAlongEdge { edge: 17 },
            Action::PickupJewel { jewel: 5 },
            Action::EndTurn,
        ],
    };
    let bytes = log.to_bytes();
    assert_eq!(
        bytes,
        vec![8, 7, 6, 5, 4, 3, 2, 1, 3, 0b0101, 4, 0, 0, 0, 0x00, 0x02, 17, 0x04, 5, 0x09]
    );
    let back = GameLog::from_bytes(&bytes).unwrap();
    assert_eq!(back.seed, log.seed);
    assert_eq!(back.variant, log.variant);
    assert_eq!(back.figure_count, 3);
    assert_eq!(back.actions, log.actions);
}

#[test]
fn replayed_result_summarises_the_final_state() {
    let mut strats = vec![FirstActionStrategy; 3];
    let (result, log): (GameResult, GameLog) =
        simulate_one_game_logged(3, Variant::advanced(), 3, &mut strats);
    assert!(result.spuk_placed as usize <= 12);
    assert!(result.jewels_deposited <= 8);
    let turns = log.actions.iter().filter(|a| matches!(a, Action::EndTurn)).count() as u32;
    assert_eq!(result.turns_taken, turns);
    assert_eq!(replay(&log), result);
}
