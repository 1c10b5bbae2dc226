//! Whole games: playing one to its end with a set of strategies, recording it,
//! and replaying a record.
use vstd::prelude::*;

use crate::action::Action;
use crate::engine::{deposited_total, Draws, GameResult, StepResult};
use crate::game::{is_initial, Game};
use crate::observation::{shows, PlayerView};
use crate::rules::spec_legal_actions;
use crate::state::{GameState, JEWEL_COUNT};
use crate::step::{draws_fit, spec_step};
use crate::strategy::Strategy;
use crate::variant::Variant;

verus! {

/// Where playing a sequence of actions leads.
pub struct Outcome {
    /// The state reached.
    pub state: GameState,
    /// A step ended the game with a win or a loss; the actions after it were not played.
    pub ended: bool,
    /// Every action played was legal when it was played.
    pub legal: bool,
    /// Every chance outcome used is one that the dice and shuffles can give.
    pub fits: bool,
}

/// Playing `acts` from `s`, the `k`-th action with the chance outcomes `ds[k]`,
/// until a step ends the game.
pub open spec fn play(s: GameState, acts: Seq<Action>, ds: Seq<Draws>) -> Outcome
    decreases acts.len(),
{
    if acts.len() == 0 {
        Outcome { state: s, ended: false, legal: true, fits: true }
    } else {
        let k = acts.len() - 1;
        let prev = play(s, acts.take(k), ds.take(k));
        if prev.ended {
            prev
        } else {
            let next = spec_step(prev.state, acts[k], ds[k]);
            Outcome {
                state: next.0,
                ended: next.1 == StepResult::Win || next.1 == StepResult::Loss,
                legal: prev.legal && spec_legal_actions(prev.state).contains(acts[k]),
                fits: prev.fits && draws_fit(prev.state, ds[k]),
            }
        }
    }
}

/// How many of `acts` are played before the game ends (all of them if it does not).
pub open spec fn played(s: GameState, acts: Seq<Action>, ds: Seq<Draws>) -> nat
    decreases acts.len(),
{
    if acts.len() == 0 {
        0
    } else {
        let k = acts.len() - 1;
        if play(s, acts.take(k), ds.take(k)).ended {
            played(s, acts.take(k), ds.take(k))
        } else {
            acts.len()
        }
    }
}

/// The number of turns ended in `acts`.
pub open spec fn turns_in(acts: Seq<Action>) -> nat
    decreases acts.len(),
{
    if acts.len() == 0 {
        0
    } else {
        turns_in(acts.drop_last()) + if acts.last() == Action::EndTurn {
            1nat
        } else {
            0nat
        }
    }
}

/// The actions `acts` play the game out: it ended, or no action is legal in the
/// state reached, or the turn counter is full, or the record has reached the
/// 64-bit step bound.
pub open spec fn played_out(s0: GameState, acts: Seq<Action>, ds: Seq<Draws>) -> bool {
    ||| play(s0, acts, ds).ended
    ||| spec_legal_actions(play(s0, acts, ds).state).len() == 0
    ||| turns_in(acts) == u32::MAX
    ||| acts.len() == u64::MAX
}

/// The summary of a game that reached `s` after `turns` turns.
pub open spec fn result_of(s: GameState, turns: nat) -> GameResult {
    GameResult {
        won: s.players_won,
        turns_taken: turns as u32,
        spuk_placed: s.spuk_count,
        jewels_deposited: deposited_total(s.jewel_deposited@, JEWEL_COUNT as nat) as u8,
    }
}

/// Whether `a`, taken in state `s`, was chosen as a simulation chooses: the only
/// legal action, when it is to roll, draw or end the turn, is taken without
/// asking; any other action is the answer of a strategy of kind `S` shown the
/// active figure's view of `s` with the legal actions of `s`.
pub open spec fn chosen<S: Strategy>(s: GameState, a: Action) -> bool {
    let legal = spec_legal_actions(s);
    if legal.len() == 1 && (legal[0] == Action::RollDie || legal[0] == Action::DrawGhostCard || legal[0]
        == Action::EndTurn) {
        a == legal[0]
    } else {
        exists|v: PlayerView| #[trigger] shows(v, s, s.active_figure, legal) && S::answers(v, a)
    }
}

/// Every action of `acts` was chosen, as a simulation chooses, in the state where it was played.
pub open spec fn all_chosen<S: Strategy>(s0: GameState, acts: Seq<Action>, ds: Seq<Draws>) -> bool {
    forall|k: int|
        0 <= k < acts.len() ==> #[trigger] chosen::<S>(play(s0, acts.take(k), ds.take(k)).state, acts[k])
}

/// Choosing one more action, in the state the others lead to, keeps them all chosen.
proof fn lemma_all_chosen_push<S: Strategy>(s0: GameState, acts: Seq<Action>, ds: Seq<Draws>, a: Action, d: Draws)
    requires
        ds.len() == acts.len(),
        all_chosen::<S>(s0, acts, ds),
        chosen::<S>(play(s0, acts, ds).state, a),
    ensures
        all_chosen::<S>(s0, acts.push(a), ds.push(d)),
{
    let acts2 = acts.push(a);
    let ds2 = ds.push(d);
    assert forall|k: int| 0 <= k < acts2.len() implies #[trigger] chosen::<S>(
        play(s0, acts2.take(k), ds2.take(k)).state,
        acts2[k],
    ) by {
        if k < acts.len() {
            assert(acts2.take(k) =~= acts.take(k));
            assert(ds2.take(k) =~= ds.take(k));
            assert(chosen::<S>(play(s0, acts.take(k), ds.take(k)).state, acts[k]));
        } else {
            assert(acts2.take(k) =~= acts);
            assert(ds2.take(k) =~= ds);
        }
    }
}

/// A complete record of one game: the seed and every action taken, in order.
/// Because the engine draws all its chance from the seeded generator, replaying
/// the same actions from the same seed reproduces the game.
#[derive(Debug, Clone)]
pub struct GameLog {
    pub seed: u64,
    pub variant: Variant,
    pub figure_count: u8,
    pub actions: Vec<Action>,
}

/// The number of deposited jewels.
fn count_deposited(state: &GameState) -> (n: u8)
    ensures
        n == deposited_total(state.jewel_deposited@, JEWEL_COUNT as nat),
{
    let mut n: u8 = 0;
    let mut j: usize = 0;
    while j < JEWEL_COUNT
        invariant
            j <= JEWEL_COUNT,
            n == deposited_total(state.jewel_deposited@, j as nat),
            n <= j,
        decreases JEWEL_COUNT - j,
    {
        if state.jewel_deposited[j] {
            n = n + 1;
        }
        j = j + 1;
    }
    n
}

/// Whether `a` is resolved without asking a strategy when it is the only legal action.
fn is_automatic(a: Action) -> (b: bool)
    ensures
        b == (a == Action::RollDie || a == Action::DrawGhostCard || a == Action::EndTurn),
{
    match a {
        Action::RollDie | Action::DrawGhostCard | Action::EndTurn => true,
        _ => false,
    }
}

/// Plays one game to its end and records every action taken, automatic ones
/// included. Figure `i` is controlled by `strategies[i % strategies.len()]`;
/// when the only legal action is to roll, draw or end the turn, it is taken
/// without asking; every other action is the strategy's answer to the active
/// figure's view of the current state and its legal actions. Strategy `i` is
/// told before the game that it plays figure `i`, and every strategy is told
/// the outcome at the end. The game stops when it is won or lost, when no
/// action is legal, or when the turn counter would pass `u32::MAX`.
#[verifier::spinoff_prover]
#[verifier::rlimit(50)]
pub fn simulate_one_game_logged<S: Strategy>(
    seed: u64,
    variant: Variant,
    figure_count: u8,
    strategies: &mut Vec<S>,
) -> (out: (GameResult, GameLog))
    requires
        figure_count == 3 || figure_count == 4,
        old(strategies).len() > 0,
    ensures
        final(strategies).len() == old(strategies).len(),
        out.1.seed == seed,
        out.1.variant == variant,
        out.1.figure_count == figure_count,
        exists|s0: GameState, ds: Seq<Draws>|
            {
                &&& is_initial(s0, variant, figure_count)
                &&& s0.wf()
                &&& ds.len() == out.1.actions@.len()
                &&& #[trigger] play(s0, out.1.actions@, ds).legal
                &&& play(s0, out.1.actions@, ds).fits
                &&& played(s0, out.1.actions@, ds) == out.1.actions@.len()
                &&& played_out(s0, out.1.actions@, ds)
                &&& out.0 == result_of(play(s0, out.1.actions@, ds).state, turns_in(out.1.actions@))
                &&& all_chosen::<S>(s0, out.1.actions@, ds)
            },
        out.0.turns_taken == turns_in(out.1.actions@),
{
    let mut game = Game::new(seed, variant, figure_count);
    let mut turns: u32 = 0;
    let mut action_buf: Vec<Action> = Vec::with_capacity(8);
    let mut log_actions: Vec<Action> = Vec::new();
    let ghost s0 = game@;
    let ghost mut ds: Seq<Draws> = seq![];
    let n_strats = strategies.len();
    let mut i: usize = 0;
    while i < n_strats
        invariant
            i <= n_strats,
            strategies.len() == n_strats,
        decreases n_strats - i,
    {
        strategies[i].on_game_start(i as u8, variant);
        i = i + 1;
    }
    // A game ends long before this many steps; the bound only makes the loop finite.
    let mut budget: u64 = u64::MAX;
    let mut done = false;
    while !done && budget > 0
        invariant
            strategies.len() == n_strats,
            n_strats > 0,
            is_initial(s0, variant, figure_count),
            s0.wf(),
            game@.wf(),
            ds.len() == log_actions@.len(),
            game@ == play(s0, log_actions@, ds).state,
            play(s0, log_actions@, ds).legal,
            play(s0, log_actions@, ds).fits,
            !done ==> !play(s0, log_actions@, ds).ended,
            played(s0, log_actions@, ds) == log_actions@.len(),
            turns == turns_in(log_actions@),
            all_chosen::<S>(s0, log_actions@, ds),
            !done ==> log_actions@.len() + budget == u64::MAX,
            done ==> played_out(s0, log_actions@, ds),
        decreases budget,
    {
        budget = budget - 1;
        game.legal_actions_into(&mut action_buf);
        if action_buf.len() == 0 || game.is_finished() {
            done = true;
            proof {
                if game@.game_over {
                    assert(spec_legal_actions(game@) =~= Seq::<Action>::empty());
                }
            }
        } else {
            // Rolling, drawing and ending the turn are resolved automatically
            // when they are the only legal action.
            let action = if action_buf.len() == 1 && is_automatic(action_buf[0]) {
                action_buf[0]
            } else {
                let snapshot = game.state_snapshot();
                let fig = snapshot.active_figure as usize;
                let view = PlayerView::from_state(&snapshot, snapshot.active_figure, action_buf.as_slice());
                let answer = strategies[fig % n_strats].choose_action(&view);
                proof {
                    assert(shows(view, game@, game@.active_figure, spec_legal_actions(game@)));
                }
                answer
            };
            assert(chosen::<S>(game@, action));
            assert(action_buf@.contains(action));
            if action == Action::EndTurn && turns == u32::MAX {
                done = true;
            } else {
                if action == Action::EndTurn {
                    turns = turns + 1;
                }
                let ghost before = game@;
                let ghost acts0 = log_actions@;
                let ghost ds0 = ds;
                log_actions.push(action);
                let result = game.step(action);
                proof {
                    let d = choose|d: Draws| draws_fit(before, d) && #[trigger] spec_step(before, action, d) == (game@, result);
                    lemma_all_chosen_push::<S>(s0, acts0, ds0, action, d);
                    ds = ds.push(d);
                    assert(log_actions@.take(acts0.len() as int) =~= acts0);
                    assert(ds.take(acts0.len() as int) =~= ds0);
                    assert(log_actions@.drop_last() =~= acts0);
                }
                if result == StepResult::Win || result == StepResult::Loss {
                    done = true;
                }
            }
        }
    }
    let snapshot = game.state_snapshot();
    let won = snapshot.players_won;
    let spuk = snapshot.spuk_count;
    let jewels = count_deposited(&snapshot);
    let mut i: usize = 0;
    while i < n_strats
        invariant
            i <= n_strats,
            strategies.len() == n_strats,
        decreases n_strats - i,
    {
        strategies[i].on_game_end(won);
        i = i + 1;
    }
    let result = GameResult { won, turns_taken: turns, spuk_placed: spuk, jewels_deposited: jewels };
    let log = GameLog { seed, variant, figure_count, actions: log_actions };
    let out = (result, log);
    proof {
        assert(play(s0, out.1.actions@, ds).legal && play(s0, out.1.actions@, ds).fits);
        assert(out.0 == result_of(play(s0, out.1.actions@, ds).state, turns_in(out.1.actions@)));
        assert(played(s0, out.1.actions@, ds) == out.1.actions@.len());
        assert(played_out(s0, out.1.actions@, ds));
    }
    out
}

/// Plays one game to its end with the given strategies (see
/// `simulate_one_game_logged`, whose result it returns).
pub fn simulate_one_game<S: Strategy>(
    seed: u64,
    variant: Variant,
    figure_count: u8,
    strategies: &mut Vec<S>,
) -> (r: GameResult)
    requires
        figure_count == 3 || figure_count == 4,
        old(strategies).len() > 0,
    ensures
        final(strategies).len() == old(strategies).len(),
        exists|s0: GameState, acts: Seq<Action>, ds: Seq<Draws>|
            {
                &&& is_initial(s0, variant, figure_count)
                &&& ds.len() == acts.len()
                &&& #[trigger] play(s0, acts, ds).legal
                &&& play(s0, acts, ds).fits
                &&& played_out(s0, acts, ds)
                &&& r == result_of(play(s0, acts, ds).state, turns_in(acts))
                &&& r.turns_taken == turns_in(acts)
                &&& all_chosen::<S>(s0, acts, ds)
            },
{
    let (r, log) = simulate_one_game_logged(seed, variant, figure_count, strategies);
    proof {
        let (s0, ds) = choose|s0: GameState, ds: Seq<Draws>|
            {
                &&& is_initial(s0, variant, figure_count)
                &&& s0.wf()
                &&& ds.len() == log.actions@.len()
                &&& #[trigger] play(s0, log.actions@, ds).legal
                &&& play(s0, log.actions@, ds).fits
                &&& played(s0, log.actions@, ds) == log.actions@.len()
                &&& played_out(s0, log.actions@, ds)
                &&& r == result_of(play(s0, log.actions@, ds).state, turns_in(log.actions@))
                &&& all_chosen::<S>(s0, log.actions@, ds)
            };
        assert(play(s0, log.actions@, ds).legal);
    }
    r
}

/// Replays a recorded game: a new game from the log's seed, variant and
/// figure count, then the recorded actions in order until one ends the game.
/// The replay stops early if its turn counter would pass `u32::MAX`.
pub fn replay(log: &GameLog) -> (r: GameResult)
    requires
        log.figure_count == 3 || log.figure_count == 4,
    ensures
        exists|s0: GameState, ds: Seq<Draws>, k: nat|
            {
                &&& is_initial(s0, log.variant, log.figure_count)
                &&& ds.len() == k
                &&& k <= log.actions@.len()
                &&& #[trigger] play(s0, log.actions@.take(k as int), ds).fits
                &&& (k == log.actions@.len() || play(s0, log.actions@.take(k as int), ds).ended || turns_in(
                    log.actions@.take(k as int),
                ) == u32::MAX)
                &&& r == result_of(play(s0, log.actions@.take(k as int), ds).state, turns_in(log.actions@.take(k as int)))
            },
{
    let mut game = Game::new(log.seed, log.variant, log.figure_count);
    let ghost s0 = game@;
    let ghost mut ds: Seq<Draws> = seq![];
    let ghost acts = log.actions@;
    let mut turns: u32 = 0;
    let mut i: usize = 0;
    let mut done = false;
    while !done && i < log.actions.len()
        invariant
            acts == log.actions@,
            is_initial(s0, log.variant, log.figure_count),
            i <= acts.len(),
            game@.wf(),
            ds.len() == i,
            game@ == play(s0, acts.take(i as int), ds).state,
            play(s0, acts.take(i as int), ds).fits,
            !done ==> !play(s0, acts.take(i as int), ds).ended,
            done ==> play(s0, acts.take(i as int), ds).ended || turns == u32::MAX,
            turns == turns_in(acts.take(i as int)),
        decreases acts.len() - i + if done {
            0int
        } else {
            1int
        },
    {
        let action = log.actions[i];
        if action == Action::EndTurn && turns == u32::MAX {
            done = true;
        } else {
            if action == Action::EndTurn {
                turns = turns + 1;
            }
            let ghost before = game@;
            let ghost ds0 = ds;
            let result = game.step(action);
            proof {
                let d = choose|d: Draws| draws_fit(before, d) && #[trigger] spec_step(before, action, d) == (game@, result);
                ds = ds.push(d);
                assert(acts.take(i + 1).take(i as int) =~= acts.take(i as int));
                assert(acts.take(i + 1).drop_last() =~= acts.take(i as int));
                assert(ds.take(i as int) =~= ds0);
            }
            i = i + 1;
            if result == StepResult::Win || result == StepResult::Loss {
                done = true;
            }
        }
    }
    let snapshot = game.state_snapshot();
    let jewels = count_deposited(&snapshot);
    proof {
        assert(ds.len() == i);
    }
    GameResult {
        won: snapshot.players_won,
        turns_taken: turns,
        spuk_placed: snapshot.spuk_count,
        jewels_deposited: jewels,
    }
}

/// At most all the actions are played.
proof fn lemma_played_bound(s: GameState, acts: Seq<Action>, ds: Seq<Draws>)
    ensures
        played(s, acts, ds) <= acts.len(),
    decreases acts.len(),
{
    if acts.len() > 0 {
        lemma_played_bound(s, acts.take(acts.len() - 1), ds.take(acts.len() - 1));
    }
}

/// Once a game has ended, playing more actions changes nothing.
proof fn lemma_ended_stays(s: GameState, acts: Seq<Action>, ds: Seq<Draws>, j: nat, m: nat)
    requires
        j <= m <= acts.len(),
        ds.len() == acts.len(),
        play(s, acts.take(j as int), ds.take(j as int)).ended,
    ensures
        play(s, acts.take(m as int), ds.take(m as int)) == play(s, acts.take(j as int), ds.take(j as int)),
    decreases m - j,
{
    if j < m {
        lemma_ended_stays(s, acts, ds, j, (m - 1) as nat);
        assert(acts.take(m as int).take(m - 1) =~= acts.take(m - 1));
        assert(ds.take(m as int).take(m - 1) =~= ds.take(m - 1));
    }
}

/// Replay reproduces a recorded game: when every recorded action was played
/// (only the last may have ended the game), a replay from the same start with
/// the same chance outcomes, which stops only where the game or the record
/// ends, plays all the actions and reaches the recorded state and result.
pub proof fn lemma_replay_reproduces(s0: GameState, acts: Seq<Action>, ds: Seq<Draws>, k: nat)
    requires
        ds.len() == acts.len(),
        played(s0, acts, ds) == acts.len(),
        k <= acts.len(),
        k == acts.len() || play(s0, acts.take(k as int), ds.take(k as int)).ended,
    ensures
        k == acts.len(),
        result_of(play(s0, acts.take(k as int), ds.take(k as int)).state, turns_in(acts.take(k as int)))
            == result_of(play(s0, acts, ds).state, turns_in(acts)),
{
    if k < acts.len() {
        let n = acts.len();
        lemma_ended_stays(s0, acts, ds, k, (n - 1) as nat);
        lemma_played_bound(s0, acts.take(n - 1), ds.take(n - 1));
        assert(acts.take(n as int) =~= acts);
        assert(!play(s0, acts.take(n - 1), ds.take(n - 1)).ended);
    }
    assert(acts.take(acts.len() as int) =~= acts);
    assert(ds.take(acts.len() as int) =~= ds);
}

} // verus!
