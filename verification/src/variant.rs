//! Variant (difficulty) configuration.
use vstd::prelude::*;

verus! {

/// Variant/difficulty configuration for one game.
/// All flags are independent; any combination is valid.
#[derive(Debug, Clone, Copy, PartialEq, Eq, Hash, Structural)]
pub struct Variant {
    /// Include the "Zieh 2" card: draw 2 ghost cards on that trigger.
    pub draw_two_card: bool,
    /// Include the "Zieh 3" card: draw 3 ghost cards on that trigger.
    pub draw_three_card: bool,
    /// Include the blue/green door-blocking cards.
    pub door_cards: bool,
    /// Jewels are numbered 1–8 face down and must be collected in ascending order.
    pub numbered_jewels: bool,
}

/// The base ruleset: no advanced cards, unnumbered jewels.
pub open spec fn spec_base() -> Variant {
    Variant { draw_two_card: false, draw_three_card: false, door_cards: false, numbered_jewels: false }
}

/// Every advanced card and numbered jewels (hard mode).
pub open spec fn spec_advanced() -> Variant {
    Variant { draw_two_card: true, draw_three_card: true, door_cards: true, numbered_jewels: true }
}

impl Variant {
    /// The base ruleset: no advanced cards, unnumbered jewels.
    pub fn base() -> (v: Self)
        ensures
            v == spec_base(),
    {
        Variant { draw_two_card: false, draw_three_card: false, door_cards: false, numbered_jewels: false }
    }

    /// Every advanced card and numbered jewels (hard mode).
    pub fn advanced() -> (v: Self)
        ensures
            v == spec_advanced(),
    {
        Variant { draw_two_card: true, draw_three_card: true, door_cards: true, numbered_jewels: true }
    }
}

impl Default for Variant {
    /// The base variant.
    fn default() -> (v: Self)
        ensures
            v == spec_base(),
    {
        Self::base()
    }
}

} // verus!
