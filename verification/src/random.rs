//! A strategy that picks uniformly at random among the legal actions: a
//! baseline, and the playout policy of tree search.
use vstd::prelude::*;

use rand::rngs::SmallRng;

use crate::action::Action;
use crate::observation::PlayerView;
use crate::rng::{small_rng_below, small_rng_from_os, small_rng_seeded};
use crate::strategy::Strategy;
use crate::variant::Variant;

verus! {

/// Picks uniformly at random from the legal actions.
pub struct RandomStrategy {
    rng: SmallRng,
}

impl RandomStrategy {
    /// A random strategy whose choices come from a generator seeded with `seed`.
    pub fn new(seed: u64) -> (s: Self) {
        RandomStrategy { rng: small_rng_seeded(seed) }
    }

    /// A random strategy seeded by the operating system; `None` when the
    /// operating system cannot provide a seed.
    pub fn new_unseeded() -> (s: Option<Self>) {
        match small_rng_from_os() {
            Some(rng) => Some(RandomStrategy { rng }),
            None => None,
        }
    }
}

impl Strategy for RandomStrategy {
    /// One of the legal actions, each as likely as the others.
    fn choose_action(&mut self, view: &PlayerView) -> (a: Action) {
        let n = view.legal_actions.len();
        let idx = small_rng_below(&mut self.rng, n);
        view.legal_actions[idx]
    }

    fn on_game_start(&mut self, _figure_id: u8, _variant: Variant) {
    }

    fn on_game_end(&mut self, _won: bool) {
    }
}

} // verus!
