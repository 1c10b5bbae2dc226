use ggs::action::{Action, CombatRoll, SymbolFace};
use ggs::batch::{parse_variant, BatchStats};
use ggs::board::{
    build_adjacency, node_desc, node_room, room_node, NodeKind, RoomLabel, ENTRANCE, H1, H2, NODE_COUNT, ROOM_A,
    ROOM_C, ROOM_J,
};
use ggs::engine::{next_room, GameResult, StepResult};
use ggs::game::Game;
use ggs::greedy::GreedyStrategy;
use ggs::observation::{observation_dim, view_to_state, PlayerView};
use ggs::random::RandomStrategy;
use ggs::rules;
use ggs::simulation::{replay, simulate_one_game, simulate_one_game_logged};
use ggs::state::{GhostCard, TurnPhase};
use ggs::strategy::Strategy;
use ggs::variant::Variant;
use ggs::vocabulary::{action_to_idx, idx_to_action, ACTION_DIM};

#[derive(Clone)]
struct LastActionStrategy;

impl Strategy for LastActionStrategy {
    fn choose_action(&mut self, view: &PlayerView) -> Action {
        *view.legal_actions.last().unwrap()
    }
}

fn spuk_on_board(game: &Game) -> u8 {
    game.state.node_states.iter().filter(|ns| ns.has_spuk).count() as u8
}

// --- Steps ---

#[test]
fn illegal_action_is_refused_and_changes_nothing() {
    let mut game = Game::new(11, Variant::base(), 4);
    let before = game.state_snapshot();
    assert_eq!(game.step(Action::EndTurn), StepResult::IllegalAction);
    assert_eq!(game.state_snapshot(), before);
    assert_eq!(game.step(Action::MoveAlongEdge { edge: 0 }), StepResult::IllegalAction);
    assert_eq!(game.state_snapshot(), before);
}

#[test]
fn legal_actions_are_never_refused_and_results_agree_with_the_state() {
    for seed in 0..10u64 {
        let mut game = Game::new(seed, Variant::advanced(), 3);
        let mut steps = 0;
        while !game.is_finished() && steps < 5000 {
            let legal = game.legal_actions();
            if legal.is_empty() {
                break;
            }
            let action = legal[(seed as usize + steps) % legal.len()];
            let r = game.step(action);
            assert_ne!(r, StepResult::IllegalAction);
            assert_eq!(game.is_finished(), matches!(r, StepResult::Win | StepResult::Loss));
            match r {
                StepResult::Win => assert_eq!(game.winner(), Some(true)),
                StepResult::Loss => {
                    assert_eq!(game.winner(), Some(false));
                    assert!(rules::is_loss(&game.state));
                }
                _ => assert_eq!(game.winner(), None),
            }
            // The Spuk counter always matches the board.
            assert_eq!(game.state.spuk_count, spuk_on_board(&game));
            // A revealed jewel number is the one hidden in the jewel's home room.
            for (j, &room) in RoomLabel::STARTS_WITH_JEWEL.iter().enumerate() {
                let revealed = game.state.jewel_number[j];
                let hidden = game.state.node_states[room_node(room) as usize].jewel_number;
                assert!(revealed == 0 || revealed == hidden);
            }
            steps += 1;
        }
    }
}

#[test]
fn a_finished_game_only_reports_its_outcome() {
    let mut game = Game::new(1, Variant::base(), 4);
    game.state.game_over = true;
    game.state.players_won = false;
    let before = game.state_snapshot();
    assert_eq!(game.step(Action::RollDie), StepResult::Loss);
    assert_eq!(game.state_snapshot(), before);
    game.state.players_won = true;
    assert_eq!(game.step(Action::RollDie), StepResult::Win);
}

#[test]
fn rolling_the_number_die_gives_one_to_six() {
    let mut seen = [false; 7];
    for seed in 0..200u64 {
        let mut game = Game::new(seed, Variant::base(), 4);
        assert_eq!(game.step(Action::RollDie), StepResult::Continue);
        let roll = game.state.die_roll;
        assert!((1..=6).contains(&roll));
        assert_eq!(game.state.moves_remaining, roll);
        if roll < 6 {
            assert_eq!(game.state.phase, TurnPhase::DrawGhostCard { cards_remaining: 1 });
        } else {
            assert_eq!(game.state.phase, TurnPhase::Move);
        }
        seen[roll as usize] = true;
    }
    assert!(seen[1..].iter().all(|&s| s), "every face of the die should come up");
}

#[test]
fn the_same_seed_gives_the_same_game() {
    let a = Game::new(99, Variant::advanced(), 4);
    let b = Game::new(99, Variant::advanced(), 4);
    assert_eq!(a.state_snapshot(), b.state_snapshot());
    let c = Game::new(100, Variant::advanced(), 4);
    assert_ne!(a.state.deck.cards, c.state.deck.cards);
}

#[test]
fn a_shuffled_deck_holds_the_cards_of_its_variant() {
    for seed in 0..20u64 {
        let game = Game::new(seed, Variant::advanced(), 4);
        let deck = &game.state.deck;
        let cards = &deck.cards[..deck.size as usize];
        for room in [
            RoomLabel::A,
            RoomLabel::B,
            RoomLabel::C,
            RoomLabel::D,
            RoomLabel::E,
            RoomLabel::F,
            RoomLabel::G,
            RoomLabel::H,
            RoomLabel::I,
            RoomLabel::J,
            RoomLabel::K,
            RoomLabel::L,
        ] {
            assert_eq!(cards.iter().filter(|&&c| c == GhostCard::Room(room)).count(), 1);
        }
        assert_eq!(cards.iter().filter(|&&c| c == GhostCard::Reshuffle).count(), 1);
        assert_eq!(cards.iter().filter(|&&c| c == GhostCard::DrawTwo).count(), 1);
        assert_eq!(cards.iter().filter(|&&c| c == GhostCard::DrawThree).count(), 1);
        assert_eq!(cards.iter().filter(|&&c| c == GhostCard::BlueDoors).count(), 2);
        assert_eq!(cards.iter().filter(|&&c| c == GhostCard::GreenDoors).count(), 2);
        assert_eq!(deck.top, 0);
    }
}

#[test]
fn numbered_jewels_hide_one_to_eight() {
    for seed in 0..20u64 {
        let game = Game::new(seed, Variant::advanced(), 3);
        let mut numbers: Vec<u8> = RoomLabel::STARTS_WITH_JEWEL
            .iter()
            .map(|&r| game.state.node_states[room_node(r) as usize].jewel_number)
            .collect();
        numbers.sort();
        assert_eq!(numbers, vec![1, 2, 3, 4, 5, 6, 7, 8]);
    }
    let base = Game::new(0, Variant::base(), 3);
    assert!(base.state.node_states.iter().all(|ns| ns.jewel_number == 0));
}

#[test]
fn a_new_game_starts_at_the_entrance() {
    let game = Game::new(5, Variant::base(), 3);
    let s = &game.state;
    assert_eq!(s.figure_count, 3);
    assert_eq!(s.node_states[ENTRANCE as usize].figures, 0b111);
    assert!(s.figure_pos.iter().all(|&p| p == ENTRANCE));
    assert_eq!(s.phase, TurnPhase::RollDie);
    assert_eq!(s.active_figure, 0);
    assert_eq!(s.spuk_count, 0);
    assert_eq!(s.next_required_jewel, 1);
    assert!(!s.game_over);
    let jewels: Vec<u8> = RoomLabel::STARTS_WITH_JEWEL
        .iter()
        .map(|&r| s.node_states[room_node(r) as usize].jewel.unwrap())
        .collect();
    assert_eq!(jewels, vec![0, 1, 2, 3, 4, 5, 6, 7]);
}

#[test]
fn a_third_ghost_becomes_a_spuk() {
    let mut game = Game::new(0, Variant::base(), 4);
    assert!(!game.place_ghost_in(RoomLabel::C));
    assert_eq!(game.state.node_states[ROOM_C as usize].ghosts, 2);
    assert!(!game.place_ghost_in(RoomLabel::C));
    let c = game.state.node_states[ROOM_C as usize];
    assert_eq!(c.ghosts, 0);
    assert!(c.has_spuk);
    assert_eq!(game.state.spuk_count, 1);
}

#[test]
fn rooms_follow_each_other_alphabetically() {
    assert_eq!(next_room(RoomLabel::A), RoomLabel::B);
    assert_eq!(next_room(RoomLabel::K), RoomLabel::L);
    assert_eq!(next_room(RoomLabel::L), RoomLabel::A);
    let mut r = RoomLabel::E;
    for _ in 0..12 {
        r = next_room(r);
    }
    assert_eq!(r, RoomLabel::E);
}

// --- Board and rules ---

#[test]
fn room_nodes_and_rooms_correspond() {
    assert_eq!(room_node(RoomLabel::A), ROOM_A);
    assert_eq!(room_node(RoomLabel::J), ROOM_J);
    for n in 0..NODE_COUNT as u8 {
        match node_room(n) {
            Some(r) => assert_eq!(room_node(r), n),
            None => assert!(n < 24),
        }
    }
    assert_eq!(RoomLabel::C.as_str(), "C");
    assert_eq!(RoomLabel::L.as_str(), "L");
}

#[test]
fn nodes_are_described_by_kind_and_name() {
    let d = node_desc(ENTRANCE);
    assert_eq!(d.label, "Entrance");
    assert!(matches!(d.kind, NodeKind::Entrance));
    let d = node_desc(12);
    assert_eq!((d.id, d.label), (12, "H12"));
    assert!(matches!(d.kind, NodeKind::Hallway));
    let d = node_desc(ROOM_J);
    assert_eq!(d.label, "J");
    assert!(matches!(d.kind, NodeKind::Room(RoomLabel::J)));
}

#[test]
fn adjacency_lists_each_edge_at_both_ends() {
    let adj = build_adjacency();
    assert_eq!(adj.edges_of(ENTRANCE), &[0]);
    assert_eq!(adj.edges_of(H2), &[1, 2, 3, 4]);
    assert_eq!(adj.other_end(3, H2), ROOM_J);
    assert_eq!(adj.other_end(3, ROOM_J), H2);
    let total: usize = (0..NODE_COUNT as u8).map(|n| adj.edges_of(n).len()).sum();
    assert_eq!(total, 2 * 45);
}

#[test]
fn distances_follow_the_open_edges() {
    let game = Game::new(0, Variant::base(), 4);
    assert_eq!(rules::bfs_distance(&game.state, ENTRANCE, |n| n == ENTRANCE), Some(0));
    assert_eq!(rules::bfs_distance(&game.state, ENTRANCE, |n| n == H1), Some(1));
    assert_eq!(rules::bfs_distance(&game.state, ENTRANCE, |n| n == ROOM_J), Some(3));
    let mut closed = game.state_snapshot();
    closed.edge_states[0].closed = true;
    assert_eq!(rules::bfs_distance(&closed, ENTRANCE, |n| n == ROOM_J), None);
}

#[test]
fn combat_rolls_count_faces() {
    let roll = CombatRoll { die_a: SymbolFace::GhostFace, die_b: SymbolFace::Spuk };
    assert!(roll.has_spuk());
    assert_eq!(roll.ghost_count(), 1);
    let roll = CombatRoll { die_a: SymbolFace::GhostFace, die_b: SymbolFace::GhostFace };
    assert!(!roll.has_spuk());
    assert_eq!(roll.ghost_count(), 2);
}

// --- Views, vocabulary, batches ---

#[test]
fn observation_dimension_is_fixed() {
    assert_eq!(observation_dim(), 363);
}

#[test]
fn view_shows_the_state_and_back() {
    let mut game = Game::new(4, Variant::advanced(), 4);
    game.state.edge_states[7].closed = true;
    game.state.phase = TurnPhase::Move;
    game.state.die_roll = 4;
    let legal = game.legal_actions();
    let view = PlayerView::from_state(&game.state, 2, &legal);
    assert_eq!(view.figure_id, 2);
    assert!(view.edge_closed[7]);
    assert!(!view.edge_closed[6]);
    assert_eq!(view.legal_actions, legal);
    assert_eq!(view.deck_size, 19);
    let s = view_to_state(&view);
    assert_eq!(s.moves_remaining, 4);
    assert!(s.edge_states[7].closed);
    assert_eq!(s.deck.size, 19);
    assert_eq!(s.figure_pos, game.state.figure_pos);
    assert!(!s.game_over);
}

#[test]
fn vocabulary_numbers_every_action_once() {
    assert_eq!(action_to_idx(Action::RollDie), 0);
    assert_eq!(action_to_idx(Action::MoveAlongEdge { edge: 44 }), 46);
    assert_eq!(action_to_idx(Action::StopMoving), 47);
    assert_eq!(action_to_idx(Action::PickupJewel { jewel: 7 }), 55);
    assert_eq!(action_to_idx(Action::EndTurn), 60);
    for i in 0..ACTION_DIM {
        assert_eq!(action_to_idx(idx_to_action(i)), i);
    }
}

#[test]
fn variant_names_select_variants() {
    assert_eq!(parse_variant("base"), Variant::base());
    assert_eq!(parse_variant("full"), Variant::advanced());
    assert_eq!(parse_variant("advanced"), Variant::advanced());
    assert_eq!(parse_variant("draw2"), Variant { draw_two_card: true, ..Variant::base() });
    assert_eq!(parse_variant("draw3"), Variant { draw_three_card: true, ..Variant::base() });
    assert_eq!(parse_variant("doors"), Variant { door_cards: true, ..Variant::base() });
    assert_eq!(parse_variant("numbered"), Variant { numbered_jewels: true, ..Variant::base() });
    assert_eq!(parse_variant("nonsense"), Variant::base());
}

#[test]
fn batch_stats_add_up() {
    let mut stats = BatchStats::default();
    stats.record(GameResult { won: true, turns_taken: 40, spuk_placed: 2, jewels_deposited: 8 });
    stats.record(GameResult { won: false, turns_taken: 25, spuk_placed: 6, jewels_deposited: 3 });
    assert_eq!(
        stats,
        BatchStats { games: 2, wins: 1, total_turns: 65, total_spuk: 8, total_jewels: 11 }
    );
}

// --- Strategies ---

fn view_at(node: u8, legal: Vec<Action>) -> PlayerView {
    let mut game = Game::new(0, Variant::base(), 4);
    game.state.node_states[ENTRANCE as usize].remove_figure(0);
    game.state.node_states[node as usize].add_figure(0);
    game.state.figure_pos[0] = node;
    game.state.phase = TurnPhase::Move;
    game.state.moves_remaining = 3;
    PlayerView::from_state(&game.state, 0, &legal)
}

#[test]
fn greedy_walks_towards_the_nearest_jewel() {
    let mut greedy = GreedyStrategy::new();
    let view = view_at(ENTRANCE, vec![Action::MoveAlongEdge { edge: 0 }, Action::StopMoving]);
    assert_eq!(greedy.choose_action(&view), Action::MoveAlongEdge { edge: 0 });
    let view = view_at(
        H2,
        vec![
            Action::MoveAlongEdge { edge: 1 },
            Action::MoveAlongEdge { edge: 2 },
            Action::MoveAlongEdge { edge: 3 },
            Action::MoveAlongEdge { edge: 4 },
            Action::StopMoving,
        ],
    );
    // Room J, behind edge 3, holds the nearest jewel.
    assert_eq!(greedy.choose_action(&view), Action::MoveAlongEdge { edge: 3 });
    assert_eq!(GreedyStrategy::bfs_to_goal(&view, ENTRANCE, |n| n == ROOM_J), Some(3));
    assert_eq!(GreedyStrategy::bfs_to_goal(&view, H2, |n| n == H2), Some(0));
}

#[test]
fn greedy_deposits_picks_up_and_fights() {
    let mut greedy = GreedyStrategy::new();
    let view = view_at(ENTRANCE, vec![Action::StopMoving, Action::DepositJewel]);
    assert_eq!(greedy.choose_action(&view), Action::DepositJewel);
    let view = view_at(ROOM_A, vec![Action::PickupJewel { jewel: 0 }, Action::SkipPickup]);
    assert_eq!(greedy.choose_action(&view), Action::PickupJewel { jewel: 0 });
    let view = view_at(ROOM_C, vec![Action::Fight, Action::SkipCombat]);
    assert_eq!(greedy.choose_action(&view), Action::Fight);
    // Alone with a Spuk: the fight cannot be won, so it is skipped.
    let mut game = Game::new(0, Variant::base(), 4);
    game.state.node_states[ENTRANCE as usize].remove_figure(0);
    game.state.node_states[ROOM_C as usize].add_figure(0);
    game.state.node_states[ROOM_C as usize].has_spuk = true;
    game.state.figure_pos[0] = ROOM_C;
    let view = PlayerView::from_state(&game.state, 0, &[Action::Fight, Action::SkipCombat]);
    assert_eq!(greedy.choose_action(&view), Action::SkipCombat);
}

#[test]
fn random_strategy_picks_among_the_legal_actions() {
    let mut random = RandomStrategy::new(17);
    let legal = vec![Action::Fight, Action::SkipCombat, Action::EndTurn];
    let view = view_at(ROOM_C, legal.clone());
    let mut seen = [false; 3];
    for _ in 0..200 {
        let a = random.choose_action(&view);
        let i = legal.iter().position(|&l| l == a).expect("a legal action");
        seen[i] = true;
    }
    assert!(seen.iter().all(|&s| s), "every legal action should be chosen sometimes");
}

#[test]
fn greedy_games_replay_to_the_same_result() {
    for seed in 0..5u64 {
        let mut strats = vec![GreedyStrategy::new(); 4];
        let (result, log) = simulate_one_game_logged(seed, Variant::base(), 4, &mut strats);
        assert_eq!(replay(&log), result);
        let mut strats = vec![GreedyStrategy::new(); 4];
        assert_eq!(simulate_one_game(seed, Variant::base(), 4, &mut strats), result);
    }
}

#[test]
fn every_strategy_slot_is_used_in_turn() {
    let mut strats = vec![LastActionStrategy, LastActionStrategy];
    let (result, log) = simulate_one_game_logged(8, Variant::base(), 3, &mut strats);
    assert_eq!(log.figure_count, 3);
    assert_eq!(replay(&log), result);
}

#[test]
fn symbol_dice_decide_fights() {
    let mut removed = 0;
    let mut kept = 0;
    for seed in 0..60u64 {
        let mut game = Game::new(seed, Variant::base(), 4);
        game.state.node_states[ENTRANCE as usize].remove_figure(0);
        game.state.node_states[ROOM_C as usize].add_figure(0);
        game.state.figure_pos[0] = ROOM_C;
        game.state.phase = TurnPhase::Combat;
        assert_eq!(game.step(Action::Fight), StepResult::Continue);
        assert_eq!(game.state.phase, TurnPhase::EndTurn);
        match game.state.node_states[ROOM_C as usize].ghosts {
            0 => removed += 1,
            1 => kept += 1,
            g => panic!("unexpected ghost count {g}"),
        }
    }
    // A lone figure removes the ghost exactly when its die shows the ghost face.
    assert!(removed > 0 && kept > 0);
}

#[test]
fn hidden_numbers_are_dealt_in_varying_orders() {
    let order = |seed: u64| -> Vec<u8> {
        let game = Game::new(seed, Variant::advanced(), 4);
        RoomLabel::STARTS_WITH_JEWEL
            .iter()
            .map(|&r| game.state.node_states[room_node(r) as usize].jewel_number)
            .collect()
    };
    let first = order(0);
    assert!((1..10u64).any(|seed| order(seed) != first));
    assert_ne!(first, vec![1, 2, 3, 4, 5, 6, 7, 8]);
}

#[test]
fn a_carried_jewel_can_be_deposited_when_the_turn_ends_at_the_entrance() {
    let mut game = Game::new(3, Variant::base(), 4);
    let room = game
        .state
        .node_states
        .iter()
        .position(|ns| ns.jewel.is_some())
        .expect("a room with a jewel");
    let jewel = game.state.node_states[room].jewel.take().unwrap();
    game.state.figure_carries[0] = Some(jewel);
    game.state.active_figure = 0;
    game.state.phase = TurnPhase::EndTurn;
    assert_eq!(game.state.figure_pos[0], ENTRANCE);
    assert_eq!(game.legal_actions(), vec![Action::DepositJewel, Action::EndTurn]);
    assert_eq!(game.step(Action::DepositJewel), StepResult::Continue);
    assert!(game.state.jewel_deposited[jewel as usize]);
    assert_eq!(game.state.figure_carries[0], None);
    assert_eq!(game.state.phase, TurnPhase::EndTurn);
    assert_eq!(game.legal_actions(), vec![Action::EndTurn]);
}

#[test]
fn no_jewel_is_lost_and_spuk_stay_at_most_six() {
    for seed in 0..6u64 {
        let mut game = Game::new(seed, Variant::base(), 4);
        let mut steps = 0usize;
        while !game.is_finished() && steps < 3000 {
            let legal = game.legal_actions();
            let action = legal[(seed as usize * 7 + steps) % legal.len()];
            game.step(action);
            steps += 1;
            for j in 0..8u8 {
                let in_nodes = game.state.node_states.iter().filter(|ns| ns.jewel == Some(j)).count();
                let carried = game.state.figure_carries.iter().filter(|c| **c == Some(j)).count();
                let deposited = game.state.jewel_deposited[j as usize] as usize;
                assert_eq!(in_nodes + carried + deposited, 1, "jewel {} in exactly one place", j);
            }
            assert!(game.state.spuk_count <= 6);
            if game.state.spuk_count == 6 {
                assert!(game.is_finished());
            }
        }
    }
}

#[test]
fn the_adjacency_table_files_ninety_entries() {
    let adj = build_adjacency();
    assert_eq!(adj.offsets[0], 0);
    assert_eq!(adj.offsets[NODE_COUNT], 90);
    assert_eq!(adj.edge_data.len(), 90);
    assert!(adj.offsets.windows(2).all(|w| w[0] <= w[1]));
}

#[test]
fn an_unseeded_random_strategy_gets_a_seed_from_the_system() {
    let mut random = RandomStrategy::new_unseeded().expect("the system provides a seed");
    let legal = vec![Action::Fight, Action::SkipCombat];
    let view = view_at(ROOM_C, legal.clone());
    assert!(legal.contains(&random.choose_action(&view)));
}

#[test]
fn twelve_steps_to_the_next_room_lead_back() {
    let rooms = [
        RoomLabel::A, RoomLabel::B, RoomLabel::C, RoomLabel::D, RoomLabel::E, RoomLabel::F,
        RoomLabel::G, RoomLabel::H, RoomLabel::I, RoomLabel::J, RoomLabel::K, RoomLabel::L,
    ];
    for (i, &r) in rooms.iter().enumerate() {
        assert_eq!(room_node(next_room(r)), 24 + ((i as u8 + 1) % 12));
        let mut x = r;
        for _ in 0..12 {
            x = next_room(x);
        }
        assert_eq!(x, r);
    }
}

#[test]
fn simulated_actions_are_the_strategies_answers_to_the_active_view() {
    for seed in 0..4u64 {
        let mut strats = vec![GreedyStrategy::new(); 4];
        let (result, log) = simulate_one_game_logged(seed, Variant::base(), 4, &mut strats);
        let ended = log.actions.iter().filter(|a| **a == Action::EndTurn).count();
        assert_eq!(result.turns_taken as usize, ended);
        let mut game = Game::new(seed, Variant::base(), 4);
        let mut greedy = GreedyStrategy::new();
        for &a in log.actions.iter() {
            let legal = game.legal_actions();
            assert!(legal.contains(&a));
            let automatic = legal.len() == 1
                && matches!(legal[0], Action::RollDie | Action::DrawGhostCard | Action::EndTurn);
            if automatic {
                assert_eq!(a, legal[0]);
            } else {
                let view = PlayerView::from_state(&game.state, game.state.active_figure, &legal);
                assert_eq!(greedy.choose_action(&view), a);
            }
            game.step(a);
        }
    }
}
