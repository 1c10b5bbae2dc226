//! The interface every AI or human controller implements.
use vstd::prelude::*;

use crate::action::Action;
use crate::observation::PlayerView;
use crate::variant::Variant;

verus! {

/// Every AI or human controller implements this trait.
/// `choose_action` is called exactly once per decision point, and must return
/// one of the view's legal actions.
pub trait Strategy: Send + Sync {
    /// Whether `a` is an answer this kind of strategy gives when shown `view`:
    /// unless a strategy says more, any of the view's legal actions.
    open spec fn answers(view: PlayerView, a: Action) -> bool {
        view.legal_actions@.contains(a)
    }

    /// Chooses one of `view.legal_actions`.
    fn choose_action(&mut self, view: &PlayerView) -> (a: Action)
        requires
            view.legal_actions@.len() > 0,
        ensures
            view.legal_actions@.contains(a),
            Self::answers(*view, a),
    ;

    /// Called once before the first turn of a new game.
    fn on_game_start(&mut self, figure_id: u8, variant: Variant) {
    }

    /// Called once after the game ends.
    fn on_game_end(&mut self, won: bool) {
    }
}

} // verus!
