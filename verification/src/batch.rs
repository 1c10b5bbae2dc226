//! Batches of simulated games: naming a variant on the command line, and
//! adding up the results.
use vstd::prelude::*;
use vstd::string::StringSliceAdditionalSpecFns;

use crate::engine::GameResult;
use crate::variant::{spec_advanced, spec_base, Variant};

verus! {

/// The variant a command-line name selects: `base`, `draw2`, `draw3`, `doors`,
/// `numbered`, or `advanced` (also `full`) for every option at once. Any other
/// name selects the base game.
pub open spec fn named_variant(name: Seq<u8>) -> Variant {
    if name == seq!['f' as u8, 'u' as u8, 'l' as u8, 'l' as u8] || name == seq!['a' as u8, 'd' as u8, 'v' as u8, 'a' as u8, 'n' as u8, 'c' as u8, 'e' as u8, 'd' as u8] {
        spec_advanced()
    } else if name == seq!['d' as u8, 'r' as u8, 'a' as u8, 'w' as u8, '2' as u8] {
        Variant { draw_two_card: true, ..spec_base() }
    } else if name == seq!['d' as u8, 'r' as u8, 'a' as u8, 'w' as u8, '3' as u8] {
        Variant { draw_three_card: true, ..spec_base() }
    } else if name == seq!['d' as u8, 'o' as u8, 'o' as u8, 'r' as u8, 's' as u8] {
        Variant { door_cards: true, ..spec_base() }
    } else if name == seq!['n' as u8, 'u' as u8, 'm' as u8, 'b' as u8, 'e' as u8, 'r' as u8, 'e' as u8, 'd' as u8] {
        Variant { numbered_jewels: true, ..spec_base() }
    } else {
        spec_base()
    }
}

/// Whether `a` and `b` hold the same bytes.
fn same_bytes(a: &[u8], b: &[u8]) -> (r: bool)
    ensures
        r == (a@ == b@),
{
    if a.len() != b.len() {
        return false;
    }
    let mut i: usize = 0;
    while i < a.len()
        invariant
            a@.len() == b@.len(),
            i <= a@.len(),
            forall|k: int| 0 <= k < i ==> a@[k] == b@[k],
        decreases a@.len() - i,
    {
        if a[i] != b[i] {
            return false;
        }
        i = i + 1;
    }
    proof {
        assert(a@ =~= b@);
    }
    true
}

/// The variant named `name` (see `named_variant`).
pub fn parse_variant(name: &str) -> (v: Variant)
    ensures
        v == named_variant(name.spec_bytes()),
{
    let b = name.as_bytes();
    let full: [u8; 4] = ['f' as u8, 'u' as u8, 'l' as u8, 'l' as u8];
    let advanced: [u8; 8] = ['a' as u8, 'd' as u8, 'v' as u8, 'a' as u8, 'n' as u8, 'c' as u8, 'e' as u8, 'd' as u8];
    let draw2: [u8; 5] = ['d' as u8, 'r' as u8, 'a' as u8, 'w' as u8, '2' as u8];
    let draw3: [u8; 5] = ['d' as u8, 'r' as u8, 'a' as u8, 'w' as u8, '3' as u8];
    let doors: [u8; 5] = ['d' as u8, 'o' as u8, 'o' as u8, 'r' as u8, 's' as u8];
    let numbered: [u8; 8] = ['n' as u8, 'u' as u8, 'm' as u8, 'b' as u8, 'e' as u8, 'r' as u8, 'e' as u8, 'd' as u8];
    proof {
        assert(full@ =~= seq!['f' as u8, 'u' as u8, 'l' as u8, 'l' as u8]);
        assert(advanced@ =~= seq!['a' as u8, 'd' as u8, 'v' as u8, 'a' as u8, 'n' as u8, 'c' as u8, 'e' as u8, 'd' as u8]);
        assert(draw2@ =~= seq!['d' as u8, 'r' as u8, 'a' as u8, 'w' as u8, '2' as u8]);
        assert(draw3@ =~= seq!['d' as u8, 'r' as u8, 'a' as u8, 'w' as u8, '3' as u8]);
        assert(doors@ =~= seq!['d' as u8, 'o' as u8, 'o' as u8, 'r' as u8, 's' as u8]);
        assert(numbered@ =~= seq!['n' as u8, 'u' as u8, 'm' as u8, 'b' as u8, 'e' as u8, 'r' as u8, 'e' as u8, 'd' as u8]);
    }
    if same_bytes(b, &full) || same_bytes(b, &advanced) {
        Variant::advanced()
    } else if same_bytes(b, &draw2) {
        Variant { draw_two_card: true, ..Variant::base() }
    } else if same_bytes(b, &draw3) {
        Variant { draw_three_card: true, ..Variant::base() }
    } else if same_bytes(b, &doors) {
        Variant { door_cards: true, ..Variant::base() }
    } else if same_bytes(b, &numbered) {
        Variant { numbered_jewels: true, ..Variant::base() }
    } else {
        Variant::base()
    }
}

/// Totals over a batch of games.
#[derive(Debug, Clone, Copy, PartialEq, Eq, Structural)]
pub struct BatchStats {
    pub games: u64,
    pub wins: u64,
    pub total_turns: u64,
    pub total_spuk: u64,
    pub total_jewels: u64,
}

impl Default for BatchStats {
    /// No games yet.
    fn default() -> (s: Self)
        ensures
            s == (BatchStats { games: 0, wins: 0, total_turns: 0, total_spuk: 0, total_jewels: 0 }),
    {
        BatchStats { games: 0, wins: 0, total_turns: 0, total_spuk: 0, total_jewels: 0 }
    }
}

impl BatchStats {
    /// Adds one game's result to the totals.
    pub fn record(&mut self, r: GameResult)
        requires
            old(self).games < u64::MAX,
            old(self).wins < u64::MAX,
            old(self).total_turns + r.turns_taken <= u64::MAX,
            old(self).total_spuk + r.spuk_placed <= u64::MAX,
            old(self).total_jewels + r.jewels_deposited <= u64::MAX,
        ensures
            final(self).games == old(self).games + 1,
            final(self).wins == old(self).wins + if r.won {
                1int
            } else {
                0int
            },
            final(self).total_turns == old(self).total_turns + r.turns_taken,
            final(self).total_spuk == old(self).total_spuk + r.spuk_placed,
            final(self).total_jewels == old(self).total_jewels + r.jewels_deposited,
    {
        self.games = self.games + 1;
        if r.won {
            self.wins = self.wins + 1;
        }
        self.total_turns = self.total_turns + r.turns_taken as u64;
        self.total_spuk = self.total_spuk + r.spuk_placed as u64;
        self.total_jewels = self.total_jewels + r.jewels_deposited as u64;
    }
}

} // verus!
