//! The game driver: it owns the state and the random generator, sets a game
//! up, rolls the dice and shuffles the deck, and plays one action at a time.
use vstd::prelude::*;

use rand::rngs::StdRng;

use crate::action::{Action, SymbolFace};
use crate::board::{
    is_room_node, node_kind, room_at, room_index, NodeKind, RoomLabel, EDGE_COUNT, ENTRANCE, NODE_COUNT,
};
use crate::engine::{deposited_total, spuk_total, Draws, StepResult};
use crate::rng::{shuffle_prefix, std_rng_below, std_rng_between, std_rng_seeded};
use crate::rules::spec_legal_actions;
use crate::state::{
    has_bit, EdgeState, GameState, GhostCard, GhostDeck, JewelId, NodeState, TurnPhase, GHOST_DECK_CAPACITY,
    JEWEL_COUNT, MAX_FIGURES,
};
use crate::step::{draws_fit, is_legal, spec_step, step_with_draws};
use crate::variant::Variant;

use crate::preservation::{lemma_initial_conserved, lemma_step_keeps_sound, sound};
verus! {

// ---------------------------------------------------------------------------
// The starting position
// ---------------------------------------------------------------------------

/// The jewel a room holds at the start: the rooms of
/// `RoomLabel::STARTS_WITH_JEWEL` hold jewels 0 to 7 in that order.
pub open spec fn starting_jewel(r: RoomLabel) -> Option<JewelId> {
    match r {
        RoomLabel::A => Some(0u8),
        RoomLabel::B => Some(1u8),
        RoomLabel::D => Some(2u8),
        RoomLabel::E => Some(3u8),
        RoomLabel::G => Some(4u8),
        RoomLabel::H => Some(5u8),
        RoomLabel::J => Some(6u8),
        RoomLabel::K => Some(7u8),
        _ => None,
    }
}

/// The rooms of `RoomLabel::STARTS_WITH_GHOST` start with one ghost.
pub open spec fn starts_with_ghost(r: RoomLabel) -> bool {
    r == RoomLabel::C || r == RoomLabel::F || r == RoomLabel::I || r == RoomLabel::L
}

/// The node where jewel `k` starts.
pub open spec fn jewel_home(k: int) -> int {
    24 + room_index(RoomLabel::STARTS_WITH_JEWEL@[k])
}

/// The figure bitmask of the entrance at the start: figures `0..fc`.
pub open spec fn entrance_mask(fc: u8) -> u8 {
    if fc == 3 {
        7u8
    } else {
        15u8
    }
}

/// Node `n` as it starts, but for the hidden jewel number: figures at the
/// entrance, one ghost in each ghost room, a jewel in each jewel room, no Spuk.
pub open spec fn node_starts(ns: NodeState, n: int, fc: u8) -> bool {
    &&& !ns.has_spuk
    &&& ns.ghosts == if is_room_node(n) && starts_with_ghost(room_at(n - 24)) {
        1u8
    } else {
        0u8
    }
    &&& ns.jewel == if is_room_node(n) {
        starting_jewel(room_at(n - 24))
    } else {
        None
    }
    &&& ns.figures == if n == ENTRANCE {
        entrance_mask(fc)
    } else {
        0u8
    }
    &&& ns.jewel is None ==> ns.jewel_number == 0
}

/// The ghost cards of a fresh deck for variant `v`: one card per room A–L, the
/// Reshuffle card, then Zieh 2, Zieh 3 and two blue and two green door cards
/// where the variant includes them.
pub open spec fn deck_cards(v: Variant) -> Seq<GhostCard> {
    Seq::new(12, |i: int| GhostCard::Room(room_at(i))) + seq![GhostCard::Reshuffle] + (if v.draw_two_card {
        seq![GhostCard::DrawTwo]
    } else {
        seq![]
    }) + (if v.draw_three_card {
        seq![GhostCard::DrawThree]
    } else {
        seq![]
    }) + (if v.door_cards {
        seq![GhostCard::BlueDoors, GhostCard::BlueDoors, GhostCard::GreenDoors, GhostCard::GreenDoors]
    } else {
        seq![]
    })
}

/// A fresh deck holds the twelve room cards and the Reshuffle card, and one card
/// more for each option of Zieh 2 and Zieh 3, four more for the door cards:
/// 13 in the base game, 19 with every option. Each advanced card is in the deck
/// exactly when the variant includes it.
pub proof fn lemma_deck_cards(v: Variant)
    ensures
        deck_cards(v).len() == 13 + (if v.draw_two_card { 1int } else { 0int }) + (if v.draw_three_card {
            1int
        } else {
            0int
        }) + (if v.door_cards { 4int } else { 0int }),
        deck_cards(v).contains(GhostCard::DrawTwo) == v.draw_two_card,
        deck_cards(v).contains(GhostCard::DrawThree) == v.draw_three_card,
        deck_cards(v).contains(GhostCard::BlueDoors) == v.door_cards,
        deck_cards(v).contains(GhostCard::GreenDoors) == v.door_cards,
        deck_cards(crate::variant::spec_base()).len() == 13,
        deck_cards(crate::variant::spec_advanced()).len() == 19,
{
    let rooms = Seq::new(12, |i: int| GhostCard::Room(room_at(i)));
    let d = deck_cards(v);
    let two = if v.draw_two_card { seq![GhostCard::DrawTwo] } else { Seq::<GhostCard>::empty() };
    let three = if v.draw_three_card { seq![GhostCard::DrawThree] } else { Seq::<GhostCard>::empty() };
    let doors = if v.door_cards {
        seq![GhostCard::BlueDoors, GhostCard::BlueDoors, GhostCard::GreenDoors, GhostCard::GreenDoors]
    } else {
        Seq::<GhostCard>::empty()
    };
    assert(d == rooms + seq![GhostCard::Reshuffle] + two + three + doors);
    let n2 = 13int;
    let n3 = n2 + two.len();
    let n4 = n3 + three.len();
    if v.draw_two_card {
        assert(d[n2] == GhostCard::DrawTwo);
    }
    if v.draw_three_card {
        assert(d[n3] == GhostCard::DrawThree);
    }
    if v.door_cards {
        assert(d[n4] == GhostCard::BlueDoors);
        assert(d[n4 + 2] == GhostCard::GreenDoors);
    }
    assert forall|i: int| 0 <= i < d.len() implies (d[i] == GhostCard::DrawTwo ==> v.draw_two_card) && (d[i]
        == GhostCard::DrawThree ==> v.draw_three_card) && (d[i] == GhostCard::BlueDoors ==> v.door_cards) && (d[i]
        == GhostCard::GreenDoors ==> v.door_cards) by {
        if i < 12 {
            assert(d[i] == rooms[i]);
        } else if i == 12 {
        } else if i < n3 {
            assert(d[i] == two[i - 13]);
        } else if i < n4 {
            assert(d[i] == three[i - n3]);
        } else {
            assert(d[i] == doors[i - n4]);
        }
    }
}

/// The numbers on the jewels, jewel by jewel, as the rooms hide them.
pub open spec fn hidden_numbers(s: GameState) -> Seq<u8> {
    Seq::new(8, |k: int| s.node_states@[jewel_home(k)].jewel_number)
}

/// `s` is a game of variant `v` with `fc` figures that has not begun: every
/// figure at the entrance, ghosts and jewels in their starting rooms, no Spuk,
/// all doors open, nothing carried, deposited or revealed, the freshly
/// shuffled deck of the variant, and figure 0 about to roll. In the
/// numbered-jewel variant the rooms hide the numbers 1 to 8 in some order.
pub open spec fn is_initial(s: GameState, v: Variant, fc: u8) -> bool {
    &&& s.variant == v
    &&& s.figure_count == fc
    &&& forall|n: int| 0 <= n < NODE_COUNT ==> node_starts(#[trigger] s.node_states@[n], n, fc)
    &&& if v.numbered_jewels {
        hidden_numbers(s).to_multiset() == seq![1u8, 2u8, 3u8, 4u8, 5u8, 6u8, 7u8, 8u8].to_multiset()
    } else {
        forall|n: int| 0 <= n < NODE_COUNT ==> (#[trigger] s.node_states@[n]).jewel_number == 0
    }
    &&& forall|e: int| 0 <= e < EDGE_COUNT ==> !(#[trigger] s.edge_states@[e]).closed
    &&& forall|i: int| 0 <= i < MAX_FIGURES ==> #[trigger] s.figure_pos@[i] == ENTRANCE
    &&& forall|i: int| 0 <= i < MAX_FIGURES ==> (#[trigger] s.figure_carries@[i]) is None
    &&& forall|j: int| 0 <= j < JEWEL_COUNT ==> !(#[trigger] s.jewel_deposited@[j])
    &&& forall|j: int| 0 <= j < JEWEL_COUNT ==> #[trigger] s.jewel_number@[j] == 0
    &&& s.next_required_jewel == 1
    &&& s.spuk_count == 0
    &&& s.deck.top == 0
    &&& s.deck.size == deck_cards(v).len()
    &&& s.deck.cards@.subrange(0, s.deck.size as int).to_multiset() == deck_cards(v).to_multiset()
    &&& s.active_figure == 0
    &&& s.phase == TurnPhase::RollDie
    &&& s.die_roll == 0
    &&& s.moves_remaining == 0
    &&& !s.game_over
    &&& !s.players_won
}

/// The starting rooms in the spec tables are those the constants list.
pub proof fn lemma_starting_rooms()
    ensures
        forall|k: int| 0 <= k < 8 ==> starting_jewel(#[trigger] RoomLabel::STARTS_WITH_JEWEL@[k]) == Some(k as u8),
        forall|g: int| 0 <= g < 4 ==> starts_with_ghost(#[trigger] RoomLabel::STARTS_WITH_GHOST@[g]),
{
}

/// The jewel a room starts with, if any.
fn starting_jewel_of(r: RoomLabel) -> (j: Option<JewelId>)
    ensures
        j == starting_jewel(r),
{
    match r {
        RoomLabel::A => Some(0),
        RoomLabel::B => Some(1),
        RoomLabel::D => Some(2),
        RoomLabel::E => Some(3),
        RoomLabel::G => Some(4),
        RoomLabel::H => Some(5),
        RoomLabel::J => Some(6),
        RoomLabel::K => Some(7),
        _ => None,
    }
}

/// Node `n` as the game starts, with the jewel numbers `numbers` dealt when `numbered`.
fn starting_node(n: u8, fc: u8, numbers: &[u8; JEWEL_COUNT], numbered: bool) -> (ns: NodeState)
    requires
        n < NODE_COUNT,
        fc == 3 || fc == 4,
    ensures
        node_starts(ns, n as int, fc),
        ns.jewel matches Some(k) ==> ns.jewel_number == if numbered {
            numbers@[k as int]
        } else {
            0u8
        },
{
    let mut ns = NodeState { ghosts: 0, has_spuk: false, jewel: None, jewel_number: 0, figures: 0 };
    match node_kind(n) {
        NodeKind::Entrance => {
            ns.figures = if fc == 3 {
                7
            } else {
                15
            };
        },
        NodeKind::Hallway => {},
        NodeKind::Room(r) => {
            if r == RoomLabel::C || r == RoomLabel::F || r == RoomLabel::I || r == RoomLabel::L {
                ns.ghosts = 1;
            }
            ns.jewel = starting_jewel_of(r);
            if let Some(k) = ns.jewel {
                if numbered {
                    ns.jewel_number = numbers[k as usize];
                }
            }
        },
    }
    ns
}

/// A fresh deck for variant `v`, shuffled with `rng`.
fn build_deck(rng: &mut StdRng, variant: Variant) -> (deck: GhostDeck)
    ensures
        deck.top == 0,
        deck.size == deck_cards(variant).len(),
        deck.size <= GHOST_DECK_CAPACITY,
        deck.cards@.subrange(0, deck.size as int).to_multiset() == deck_cards(variant).to_multiset(),
{
    // Base deck: 12 room cards (A–L, one each) and the Reshuffle card.
    // The advanced cards add Zieh 2, Zieh 3 and two blue and two green door cards.
    let mut cards: [GhostCard; GHOST_DECK_CAPACITY] = [GhostCard::Room(RoomLabel::A); GHOST_DECK_CAPACITY];
    let rooms = [
        RoomLabel::A,
        RoomLabel::B,
        RoomLabel::C,
        RoomLabel::D,
        RoomLabel::E,
        RoomLabel::F,
        RoomLabel::G,
        RoomLabel::H,
        RoomLabel::I,
        RoomLabel::J,
        RoomLabel::K,
        RoomLabel::L,
    ];
    let mut size: usize = 0;
    while size < 12
        invariant
            size <= 12,
            forall|i: int| 0 <= i < 12 ==> #[trigger] rooms@[i] == room_at(i),
            cards@.subrange(0, size as int) == Seq::new(size as nat, |i: int| GhostCard::Room(room_at(i))),
        decreases 12 - size,
    {
        let ghost prev = cards@;
        assert(rooms@[size as int] == room_at(size as int));
        cards[size] = GhostCard::Room(rooms[size]);
        proof {
            assert(cards@ == prev.update(size as int, GhostCard::Room(room_at(size as int))));
            assert forall|i: int| 0 <= i < size implies prev[i] == GhostCard::Room(room_at(i)) by {
                assert(prev.subrange(0, size as int)[i] == prev[i]);
            }
            assert(cards@.subrange(0, size + 1) =~= Seq::new((size + 1) as nat, |i: int| GhostCard::Room(room_at(i))));
        }
        size = size + 1;
    }
    let ghost all: Seq<GhostCard> = Seq::new(12, |i: int| GhostCard::Room(room_at(i))) + seq![GhostCard::Reshuffle];
    cards[size] = GhostCard::Reshuffle;
    size = size + 1;
    proof {
        assert(cards@.subrange(0, size as int) =~= all);
    }
    if variant.draw_two_card {
        cards[size] = GhostCard::DrawTwo;
        size = size + 1;
        proof {
            assert(cards@.subrange(0, size as int) =~= all + seq![GhostCard::DrawTwo]);
            all = all + seq![GhostCard::DrawTwo];
        }
    }
    if variant.draw_three_card {
        cards[size] = GhostCard::DrawThree;
        size = size + 1;
        proof {
            assert(cards@.subrange(0, size as int) =~= all + seq![GhostCard::DrawThree]);
            all = all + seq![GhostCard::DrawThree];
        }
    }
    if variant.door_cards {
        cards[size] = GhostCard::BlueDoors;
        cards[size + 1] = GhostCard::BlueDoors;
        cards[size + 2] = GhostCard::GreenDoors;
        cards[size + 3] = GhostCard::GreenDoors;
        size = size + 4;
        proof {
            let doors = seq![GhostCard::BlueDoors, GhostCard::BlueDoors, GhostCard::GreenDoors, GhostCard::GreenDoors];
            assert(cards@.subrange(0, size as int) =~= all + doors);
            all = all + doors;
        }
    }
    proof {
        assert(all =~= deck_cards(variant));
    }
    let ghost before = cards@;
    shuffle_prefix(rng, &mut cards, size);
    GhostDeck { cards, top: 0, size: size as u8 }
}

/// No Spuk among the first `k` nodes means a Spuk count of zero.
proof fn lemma_no_spuk(nodes: Seq<NodeState>, k: nat)
    requires
        k <= nodes.len(),
        forall|n: int| 0 <= n < k ==> !(#[trigger] nodes[n]).has_spuk,
    ensures
        spuk_total(nodes, k) == 0,
    decreases k,
{
    if k > 0 {
        lemma_no_spuk(nodes, (k - 1) as nat);
    }
}

/// A room that starts with jewel `k` is the home of jewel `k`.
pub(crate) proof fn lemma_jewel_home(i: int)
    requires
        0 <= i < 12,
    ensures
        starting_jewel(room_at(i)) matches Some(k) ==> k < 8 && 24 + i == jewel_home(k as int),
{
}

/// The bitmask of the starting entrance holds exactly figures `0..fc`, other nodes none.
proof fn lemma_start_masks(fc: u8)
    requires
        fc == 3 || fc == 4,
    ensures
        forall|i: int| 0 <= i < 8 ==> #[trigger] has_bit(entrance_mask(fc), i) == (i < fc),
        forall|i: int| 0 <= i < 8 ==> !#[trigger] has_bit(0u8, i),
{
    assert(forall|j: u8| j < 8 ==> ((7u8 & (1u8 << j)) != 0) == (j < 3)) by (bit_vector);
    assert(forall|j: u8| j < 8 ==> ((15u8 & (1u8 << j)) != 0) == (j < 4)) by (bit_vector);
    assert(forall|j: u8| j < 8 ==> ((0u8 & (1u8 << j)) != 0) == false) by (bit_vector);
    assert forall|i: int| 0 <= i < 8 implies #[trigger] has_bit(entrance_mask(fc), i) == (i < fc) by {
        let j = i as u8;
        assert(j < 8);
    }
    assert forall|i: int| 0 <= i < 8 implies !#[trigger] has_bit(0u8, i) by {
        let j = i as u8;
        assert(j < 8);
    }
}

/// A state laid out as `setup` lays it out is a valid game that has not begun.
proof fn lemma_setup(s: GameState, v: Variant, fc: u8, numbers: [u8; JEWEL_COUNT])
    requires
        fc == 3 || fc == 4,
        s.variant == v,
        s.figure_count == fc,
        forall|n: int| 0 <= n < NODE_COUNT ==> node_starts(#[trigger] s.node_states@[n], n, fc),
        forall|n: int|
            0 <= n < NODE_COUNT ==> ((#[trigger] s.node_states@[n]).jewel matches Some(k) ==> s.node_states@[n].jewel_number
                == if v.numbered_jewels {
                numbers@[k as int]
            } else {
                0u8
            }),
        v.numbered_jewels ==> numbers@.to_multiset() == seq![1u8, 2u8, 3u8, 4u8, 5u8, 6u8, 7u8, 8u8].to_multiset(),
        forall|e: int| 0 <= e < EDGE_COUNT ==> !(#[trigger] s.edge_states@[e]).closed,
        forall|i: int| 0 <= i < MAX_FIGURES ==> #[trigger] s.figure_pos@[i] == ENTRANCE,
        forall|i: int| 0 <= i < MAX_FIGURES ==> (#[trigger] s.figure_carries@[i]) is None,
        forall|j: int| 0 <= j < JEWEL_COUNT ==> !(#[trigger] s.jewel_deposited@[j]),
        forall|j: int| 0 <= j < JEWEL_COUNT ==> #[trigger] s.jewel_number@[j] == 0,
        s.next_required_jewel == 1,
        s.spuk_count == 0,
        s.deck.top == 0,
        s.deck.size == deck_cards(v).len(),
        s.deck.size <= GHOST_DECK_CAPACITY,
        s.deck.cards@.subrange(0, s.deck.size as int).to_multiset() == deck_cards(v).to_multiset(),
        s.active_figure == 0,
        s.phase == TurnPhase::RollDie,
        s.die_roll == 0,
        s.moves_remaining == 0,
        !s.game_over,
        !s.players_won,
    ensures
        s.wf(),
        is_initial(s, v, fc),
{
    lemma_no_spuk(s.node_states@, NODE_COUNT as nat);
    lemma_start_masks(fc);
    assert forall|n: int, i: int| 0 <= n < NODE_COUNT && 0 <= i < 8 implies #[trigger] has_bit(
        s.node_states@[n].figures,
        i,
    ) == (i < s.figure_count && s.figure_pos@[i] == n) by {
        if i < 4 {
            assert(s.figure_pos@[i] == ENTRANCE);
        }
    }
    assert forall|n: int| 0 <= n < NODE_COUNT implies ((#[trigger] s.node_states@[n]).jewel matches Some(j) ==> {
        &&& j < JEWEL_COUNT
        &&& !s.jewel_deposited@[j as int]
        &&& forall|f: int| 0 <= f < MAX_FIGURES ==> #[trigger] s.figure_carries@[f] != Some(j)
        &&& forall|m: int| 0 <= m < NODE_COUNT && m != n ==> (#[trigger] s.node_states@[m]).jewel != Some(j)
    }) by {
        if let Some(j) = s.node_states@[n].jewel {
            lemma_jewel_home(n - 24);
            assert forall|m: int| 0 <= m < NODE_COUNT && m != n implies (#[trigger] s.node_states@[m]).jewel != Some(j) by {
                if is_room_node(m) {
                    lemma_jewel_home(m - 24);
                }
            }
        }
    }
    if v.numbered_jewels {
        assert forall|k: int| 0 <= k < 8 implies #[trigger] hidden_numbers(s)[k] == numbers@[k] by {
            let n = jewel_home(k);
            lemma_starting_rooms();
            assert(room_at(n - 24) == RoomLabel::STARTS_WITH_JEWEL@[k]);
            assert(s.node_states@[n].jewel == Some(k as u8));
        }
        assert(hidden_numbers(s) =~= numbers@);
    }
}

/// Lays out a fresh game: figures at the entrance, starting ghosts and jewels,
/// the hidden jewel numbers (numbered-jewel variant) and the shuffled deck.
fn setup(rng: &mut StdRng, variant: Variant, figure_count: u8) -> (s: GameState)
    requires
        figure_count == 3 || figure_count == 4,
    ensures
        s.wf(),
        is_initial(s, variant, figure_count),
{
    // Numbered-jewel variant: the jewel rooms hide a shuffled permutation of 1..=8.
    // The revealed numbers in the game state stay 0 until figures enter the rooms.
    let mut numbers: [u8; JEWEL_COUNT] = [1, 2, 3, 4, 5, 6, 7, 8];
    if variant.numbered_jewels {
        shuffle_prefix(rng, &mut numbers, JEWEL_COUNT);
        proof {
            assert(numbers@.subrange(0, 8) =~= numbers@);
            assert(seq![1u8, 2u8, 3u8, 4u8, 5u8, 6u8, 7u8, 8u8].subrange(0, 8) =~= seq![1u8, 2u8, 3u8, 4u8, 5u8, 6u8, 7u8, 8u8]);
        }
    }
    let empty = NodeState { ghosts: 0, has_spuk: false, jewel: None, jewel_number: 0, figures: 0 };
    let mut node_states = [empty; NODE_COUNT];
    let mut n: u8 = 0;
    while n < 36
        invariant
            n <= 36,
            figure_count == 3 || figure_count == 4,
            forall|m: int| 0 <= m < n ==> node_starts(#[trigger] node_states@[m], m, figure_count),
            forall|m: int|
                0 <= m < n ==> ((#[trigger] node_states@[m]).jewel matches Some(k) ==> node_states@[m].jewel_number
                    == if variant.numbered_jewels {
                    numbers@[k as int]
                } else {
                    0u8
                }),
        decreases 36 - n,
    {
        node_states[n as usize] = starting_node(n, figure_count, &numbers, variant.numbered_jewels);
        n = n + 1;
    }
    let deck = build_deck(rng, variant);
    let state = GameState {
        variant,
        figure_count,
        node_states,
        edge_states: [EdgeState { closed: false }; EDGE_COUNT],
        figure_pos: [ENTRANCE; MAX_FIGURES],
        figure_carries: [None; MAX_FIGURES],
        jewel_deposited: [false; JEWEL_COUNT],
        jewel_number: [0u8; JEWEL_COUNT],
        next_required_jewel: 1,
        spuk_count: 0,
        deck,
        active_figure: 0,
        phase: TurnPhase::RollDie,
        die_roll: 0,
        moves_remaining: 0,
        game_over: false,
        players_won: false,
    };
    proof {
        lemma_setup(state, variant, figure_count, numbers);
    }
    state
}

// ---------------------------------------------------------------------------
// The driver
// ---------------------------------------------------------------------------

/// A game in progress: the state, and the generator that rolls its dice and
/// shuffles its deck.
#[derive(Debug, Clone)]
pub struct Game {
    pub state: GameState,
    /// The generator that rolls the dice and shuffles the deck. What it will
    /// draw cannot be stated, so the view of a game leaves it out.
    pub rng: StdRng,
}

impl View for Game {
    type V = GameState;

    /// The state of the game.
    open spec fn view(&self) -> GameState {
        self.state
    }
}

impl Game {
    /// A new game of `variant` with `figure_count` figures, its chance drawn
    /// from a generator seeded with `seed`.
    pub fn new(seed: u64, variant: Variant, figure_count: u8) -> (g: Self)
        requires
            figure_count == 3 || figure_count == 4,
        ensures
            g@.wf(),
            is_initial(g@, variant, figure_count),
            sound(g@),
    {
        let mut rng = std_rng_seeded(seed);
        let state = setup(&mut rng, variant, figure_count);
        proof {
            lemma_initial_conserved(state, variant, figure_count);
        }
        Game { state, rng }
    }

    /// A game that continues from `state`, with a generator seeded with `seed`
    /// (used for Monte Carlo rollouts).
    pub fn from_state(state: GameState, seed: u64) -> (g: Self)
        ensures
            g@ == state,
    {
        Game { state, rng: std_rng_seeded(seed) }
    }

    /// Plays `action`. A finished game only reports its outcome; an action that
    /// is not legal changes nothing and is answered `IllegalAction`; a legal one
    /// is carried out with fresh dice and shuffles. Then the end of the game is
    /// checked. Whatever the dice show, the state stays valid.
    pub fn step(&mut self, action: Action) -> (r: StepResult)
        requires
            old(self)@.wf(),
        ensures
            final(self)@.wf(),
            sound(old(self)@) ==> sound(final(self)@),
            exists|d: Draws|
                draws_fit(old(self)@, d) && #[trigger] spec_step(old(self)@, action, d) == (
                final(self)@,
                r,
            ),
    {
        let ghost s0 = self.state;
        let d = if !self.state.game_over && is_legal(&self.state, action) {
            self.draw_for(action)
        } else {
            unrolled(&self.state)
        };
        let r = step_with_draws(&mut self.state, action, &d);
        proof {
            assert(draws_fit(s0, d) && spec_step(s0, action, d) == (self.state, r));
            if sound(s0) {
                lemma_step_keeps_sound(s0, action, d);
            }
        }
        r
    }

    /// The legal actions in the current state.
    pub fn legal_actions(&self) -> (v: Vec<Action>)
        requires
            crate::rules::legal_readable(self@),
        ensures
            v@ == spec_legal_actions(self@),
    {
        crate::rules::legal_actions(&self.state)
    }

    /// Writes the legal actions of the current state into `buf`.
    pub fn legal_actions_into(&self, buf: &mut Vec<Action>)
        requires
            crate::rules::legal_readable(self@),
        ensures
            final(buf)@ == spec_legal_actions(self@),
    {
        crate::rules::legal_actions_into(&self.state, buf);
    }

    /// Whether the game is over.
    pub fn is_finished(&self) -> (b: bool)
        ensures
            b == self@.game_over,
    {
        self.state.game_over
    }

    /// `Some(true)` for a win, `Some(false)` for a loss, `None` while the game runs.
    pub fn winner(&self) -> (w: Option<bool>)
        ensures
            w == if self@.game_over {
                Some(self@.players_won)
            } else {
                None
            },
    {
        if self.state.game_over {
            Some(self.state.players_won)
        } else {
            None
        }
    }

    /// A copy of the current state.
    pub fn state_snapshot(&self) -> (s: GameState)
        ensures
            s == self@,
    {
        self.state
    }

    /// Places one ghost for a card naming `room` (see `engine::spec_place_ghost`).
    /// Returns `true` if six or more Spuk are on the board afterwards.
    pub fn place_ghost_in(&mut self, room: RoomLabel) -> (over: bool)
        requires
            forall|n: int| 24 <= n < NODE_COUNT ==> (#[trigger] old(self)@.node_states@[n]).ghosts < 255,
            old(self)@.spuk_count < 255,
        ensures
            (final(self)@, over) == crate::engine::spec_place_ghost(old(self)@, room),
    {
        crate::engine::place_ghost_in(&mut self.state, room)
    }

    /// Rolls the number die: 1 to 6.
    fn roll_number_die(&mut self) -> (r: u8)
        ensures
            1 <= r <= 6,
            final(self)@ == old(self)@,
    {
        std_rng_between(&mut self.rng, 1, 6)
    }

    /// Rolls a symbol die: each of its six faces is equally likely.
    fn roll_symbol_die(&mut self) -> (f: SymbolFace)
        ensures
            final(self)@ == old(self)@,
    {
        let idx = std_rng_below(&mut self.rng, 6);
        let faces = SymbolFace::FACES;
        faces[idx]
    }

    /// The dice and shuffles that the legal `action` needs, drawn in the order
    /// the rules use them; what it does not need is left at rest.
    fn draw_for(&mut self, action: Action) -> (d: Draws)
        requires
            old(self)@.wf(),
        ensures
            final(self)@ == old(self)@,
            draws_fit(old(self)@, d),
    {
        let deck = self.state.deck;
        let mut number: u8 = 1;
        let mut die_a = SymbolFace::Blank;
        let mut die_b = SymbolFace::Blank;
        let mut shuffled = deck.cards;
        let mut reshuffled = deck.cards;
        match action {
            Action::RollDie => {
                number = self.roll_number_die();
            },
            Action::DrawGhostCard => {
                let size = deck.size as usize;
                let mut top = deck.top;
                // An empty deck is reshuffled before the draw.
                if deck.is_empty() {
                    shuffle_prefix(&mut self.rng, &mut shuffled, size);
                    top = 0;
                }
                reshuffled = shuffled;
                // A Reshuffle card reshuffles the deck it was drawn from.
                if top < deck.size && shuffled[top as usize] == GhostCard::Reshuffle {
                    shuffle_prefix(&mut self.rng, &mut reshuffled, size);
                }
            },
            Action::Fight => {
                die_a = self.roll_symbol_die();
                let pos = self.state.figure_pos[self.state.active_figure as usize];
                // The second die counts only with two or more figures in the room.
                if self.state.node_states[pos as usize].figure_count() >= 2 {
                    die_b = self.roll_symbol_die();
                }
            },
            _ => {},
        }
        Draws { number, die_a, die_b, shuffled, reshuffled }
    }
}

/// Chance outcomes at rest: what a step that rolls and shuffles nothing is handed.
fn unrolled(state: &GameState) -> (d: Draws)
    ensures
        draws_fit(*state, d),
{
    Draws {
        number: 1,
        die_a: SymbolFace::Blank,
        die_b: SymbolFace::Blank,
        shuffled: state.deck.cards,
        reshuffled: state.deck.cards,
    }
}

} // verus!
