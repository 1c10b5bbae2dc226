//! Static board topology: the entrance, 23 hallway cells and the 12 rooms A–L,
//! joined by 45 doors and corridors.
//!
//! All data here is fixed; runtime state (ghosts, Spuk, jewels, closed doors)
//! lives in the game state.
use vstd::prelude::*;

verus! {

pub type NodeId = u8;

pub type EdgeId = u8;

/// All possible node kinds.
#[derive(Debug, Clone, Copy, PartialEq, Eq, Hash, Structural)]
pub enum NodeKind {
    Entrance,
    Hallway,
    Room(RoomLabel),
}

/// The 12 named rooms of the haunted house.
#[derive(Debug, Clone, Copy, PartialEq, Eq, Hash, Structural)]
pub enum RoomLabel {
    A,
    B,
    C,
    D,
    E,
    F,
    G,
    H,
    I,
    J,
    K,
    L,
}

/// Position of a room in alphabetical order (A = 0, ..., L = 11).
pub open spec fn room_index(r: RoomLabel) -> int {
    match r {
        RoomLabel::A => 0,
        RoomLabel::B => 1,
        RoomLabel::C => 2,
        RoomLabel::D => 3,
        RoomLabel::E => 4,
        RoomLabel::F => 5,
        RoomLabel::G => 6,
        RoomLabel::H => 7,
        RoomLabel::I => 8,
        RoomLabel::J => 9,
        RoomLabel::K => 10,
        RoomLabel::L => 11,
    }
}

/// The room at alphabetical position `i` (0 ≤ i < 12).
pub open spec fn room_at(i: int) -> RoomLabel {
    if i == 0 {
        RoomLabel::A
    } else if i == 1 {
        RoomLabel::B
    } else if i == 2 {
        RoomLabel::C
    } else if i == 3 {
        RoomLabel::D
    } else if i == 4 {
        RoomLabel::E
    } else if i == 5 {
        RoomLabel::F
    } else if i == 6 {
        RoomLabel::G
    } else if i == 7 {
        RoomLabel::H
    } else if i == 8 {
        RoomLabel::I
    } else if i == 9 {
        RoomLabel::J
    } else if i == 10 {
        RoomLabel::K
    } else {
        RoomLabel::L
    }
}

/// The letter that names a room.
pub open spec fn room_letter(r: RoomLabel) -> char {
    match r {
        RoomLabel::A => 'A',
        RoomLabel::B => 'B',
        RoomLabel::C => 'C',
        RoomLabel::D => 'D',
        RoomLabel::E => 'E',
        RoomLabel::F => 'F',
        RoomLabel::G => 'G',
        RoomLabel::H => 'H',
        RoomLabel::I => 'I',
        RoomLabel::J => 'J',
        RoomLabel::K => 'K',
        RoomLabel::L => 'L',
    }
}

impl RoomLabel {
    pub const COUNT: usize = 12;

    /// Rooms that start with one ghost already placed.
    pub const STARTS_WITH_GHOST: [RoomLabel; 4] = [RoomLabel::C, RoomLabel::F, RoomLabel::I, RoomLabel::L];

    /// Rooms that start with a jewel tile (the 8 "red-letter" rooms of the
    /// standard board layout: A, B, D, E, G, H, J, K). The ghost-start rooms
    /// C, F, I, L hold no jewel.
    pub const STARTS_WITH_JEWEL: [RoomLabel; 8] = [
        RoomLabel::A,
        RoomLabel::B,
        RoomLabel::D,
        RoomLabel::E,
        RoomLabel::G,
        RoomLabel::H,
        RoomLabel::J,
        RoomLabel::K,
    ];

    /// The one-letter name of the room.
    pub fn as_str(self) -> (s: &'static str)
        ensures
            s@ == seq![room_letter(self)],
    {
        proof {
            reveal_strlit("A");
            reveal_strlit("B");
            reveal_strlit("C");
            reveal_strlit("D");
            reveal_strlit("E");
            reveal_strlit("F");
            reveal_strlit("G");
            reveal_strlit("H");
            reveal_strlit("I");
            reveal_strlit("J");
            reveal_strlit("K");
            reveal_strlit("L");
        }
        match self {
            RoomLabel::A => "A",
            RoomLabel::B => "B",
            RoomLabel::C => "C",
            RoomLabel::D => "D",
            RoomLabel::E => "E",
            RoomLabel::F => "F",
            RoomLabel::G => "G",
            RoomLabel::H => "H",
            RoomLabel::I => "I",
            RoomLabel::J => "J",
            RoomLabel::K => "K",
            RoomLabel::L => "L",
        }
    }
}

/// Door color, used by the door-blocking ghost cards.
#[derive(Debug, Clone, Copy, PartialEq, Eq, Hash, Structural)]
pub enum DoorColor {
    Uncolored,
    Blue,
    Green,
}

/// Static description of one node.
#[derive(Debug, Clone, Copy)]
pub struct NodeDesc {
    pub id: NodeId,
    pub kind: NodeKind,
    pub label: &'static str,
}

/// Static description of one edge (door or corridor).
#[derive(Debug, Clone, Copy, PartialEq, Eq, Structural)]
pub struct EdgeDesc {
    pub id: EdgeId,
    pub node_a: NodeId,
    pub node_b: NodeId,
    pub color: DoorColor,
}

pub const ENTRANCE: NodeId = 0;

pub const H1: NodeId = 1;
pub const H2: NodeId = 2;
pub const H3: NodeId = 3;
pub const H4: NodeId = 4;
pub const H5: NodeId = 5;
pub const H6: NodeId = 6;
pub const H7: NodeId = 7;
pub const H8: NodeId = 8;
pub const H9: NodeId = 9;
pub const H10: NodeId = 10;
pub const H11: NodeId = 11;
pub const H12: NodeId = 12;
pub const H13: NodeId = 13;
pub const H14: NodeId = 14;
pub const H15: NodeId = 15;
pub const H16: NodeId = 16;
pub const H17: NodeId = 17;
pub const H18: NodeId = 18;
pub const H19: NodeId = 19;
pub const H20: NodeId = 20;
pub const H21: NodeId = 21;
pub const H22: NodeId = 22;
pub const H23: NodeId = 23;

pub const ROOM_A: NodeId = 24;
pub const ROOM_B: NodeId = 25;
pub const ROOM_C: NodeId = 26;
pub const ROOM_D: NodeId = 27;
pub const ROOM_E: NodeId = 28;
pub const ROOM_F: NodeId = 29;
pub const ROOM_G: NodeId = 30;
pub const ROOM_H: NodeId = 31;
pub const ROOM_I: NodeId = 32;
pub const ROOM_J: NodeId = 33;
pub const ROOM_K: NodeId = 34;
pub const ROOM_L: NodeId = 35;

pub const NODE_COUNT: usize = 36;

pub const HALLWAY_CELL_COUNT: usize = 23;

pub const EDGE_COUNT: usize = 45;

/// Maps a room to its node id. Rooms start at 24 (after the entrance and H1–H23).
pub fn room_node(label: RoomLabel) -> (n: NodeId)
    ensures
        n == room_index(label) + 24,
{
    match label {
        RoomLabel::A => 24,
        RoomLabel::B => 25,
        RoomLabel::C => 26,
        RoomLabel::D => 27,
        RoomLabel::E => 28,
        RoomLabel::F => 29,
        RoomLabel::G => 30,
        RoomLabel::H => 31,
        RoomLabel::I => 32,
        RoomLabel::J => 33,
        RoomLabel::K => 34,
        RoomLabel::L => 35,
    }
}

/// True for the node ids of the twelve rooms.
pub open spec fn is_room_node(n: int) -> bool {
    24 <= n <= 35
}

/// The room at a node, if the node is a room.
pub open spec fn spec_node_room(id: int) -> Option<RoomLabel> {
    if is_room_node(id) {
        Some(room_at(id - 24))
    } else {
        None
    }
}

/// Room labels and room nodes correspond one to one: the node of a room is a
/// room node whose room is that room, and the room of a room node has that node.
pub proof fn lemma_room_nodes(r: RoomLabel, n: int)
    ensures
        is_room_node(room_index(r) + 24),
        spec_node_room(room_index(r) + 24) == Some(r),
        spec_node_room(n) matches Some(q) ==> room_index(q) + 24 == n,
{
}

/// Maps a node id to its room, if the node is a room.
pub fn node_room(id: NodeId) -> (r: Option<RoomLabel>)
    ensures
        r == spec_node_room(id as int),
{
    if id < 24 || id > 35 {
        return None;
    }
    Some(
        match id - 24 {
            0 => RoomLabel::A,
            1 => RoomLabel::B,
            2 => RoomLabel::C,
            3 => RoomLabel::D,
            4 => RoomLabel::E,
            5 => RoomLabel::F,
            6 => RoomLabel::G,
            7 => RoomLabel::H,
            8 => RoomLabel::I,
            9 => RoomLabel::J,
            10 => RoomLabel::K,
            _ => RoomLabel::L,
        },
    )
}

/// The kind of each node: 0 is the entrance, 1–23 are hallway cells, 24–35 the rooms.
pub open spec fn spec_node_kind(id: int) -> NodeKind {
    if id == 0 {
        NodeKind::Entrance
    } else if id < 24 {
        NodeKind::Hallway
    } else {
        NodeKind::Room(room_at(id - 24))
    }
}

/// The kind of a node.
pub fn node_kind(id: NodeId) -> (k: NodeKind)
    requires
        id < NODE_COUNT,
    ensures
        k == spec_node_kind(id as int),
{
    if id == 0 {
        NodeKind::Entrance
    } else if id < 24 {
        NodeKind::Hallway
    } else {
        match node_room(id) {
            Some(r) => NodeKind::Room(r),
            None => NodeKind::Entrance,
        }
    }
}

/// The decimal digits of `n` (below 100).
pub open spec fn decimal(n: int) -> Seq<char> {
    if n < 10 {
        seq![(48 + n) as char]
    } else {
        seq![(48 + n / 10) as char, (48 + n % 10) as char]
    }
}

/// The name of node `id`: "Entrance", "H1" to "H23", or the letter of the room.
pub open spec fn node_label(id: int) -> Seq<char> {
    if id == 0 {
        seq!['E', 'n', 't', 'r', 'a', 'n', 'c', 'e']
    } else if id < 24 {
        seq!['H'] + decimal(id)
    } else {
        seq![room_letter(room_at(id - 24))]
    }
}

/// The static description of node `id`: its id, kind and name.
pub fn node_desc(id: NodeId) -> (d: NodeDesc)
    requires
        id < NODE_COUNT,
    ensures
        d.id == id,
        d.kind == spec_node_kind(id as int),
        d.label@ == node_label(id as int),
{
    let kind = node_kind(id);
    let label = match kind {
        NodeKind::Room(r) => r.as_str(),
        _ => hallway_label(id),
    };
    NodeDesc { id, kind, label }
}

/// The name of the entrance or of a hallway cell.
fn hallway_label(id: NodeId) -> (s: &'static str)
    requires
        id < 24,
    ensures
        s@ == node_label(id as int),
{
    proof {
        reveal_strlit("Entrance");
        reveal_strlit("H1");
        reveal_strlit("H2");
        reveal_strlit("H3");
        reveal_strlit("H4");
        reveal_strlit("H5");
        reveal_strlit("H6");
        reveal_strlit("H7");
        reveal_strlit("H8");
        reveal_strlit("H9");
        reveal_strlit("H10");
        reveal_strlit("H11");
        reveal_strlit("H12");
        reveal_strlit("H13");
        reveal_strlit("H14");
        reveal_strlit("H15");
        reveal_strlit("H16");
        reveal_strlit("H17");
        reveal_strlit("H18");
        reveal_strlit("H19");
        reveal_strlit("H20");
        reveal_strlit("H21");
        reveal_strlit("H22");
        reveal_strlit("H23");
    }
    match id {
        0 => "Entrance",
        1 => "H1",
        2 => "H2",
        3 => "H3",
        4 => "H4",
        5 => "H5",
        6 => "H6",
        7 => "H7",
        8 => "H8",
        9 => "H9",
        10 => "H10",
        11 => "H11",
        12 => "H12",
        13 => "H13",
        14 => "H14",
        15 => "H15",
        16 => "H16",
        17 => "H17",
        18 => "H18",
        19 => "H19",
        20 => "H20",
        21 => "H21",
        22 => "H22",
        _ => "H23",
    }
}

/// True for the hallway cells H1–H23.
pub open spec fn is_hallway_node(n: int) -> bool {
    1 <= n <= 23
}

/// The table of the 45 edges, in id order.
pub open spec fn spec_edge(e: u8) -> EdgeDesc {
    match e {
        0 => EdgeDesc { id: 0, node_a: 0, node_b: 1, color: DoorColor::Uncolored },
        1 => EdgeDesc { id: 1, node_a: 1, node_b: 2, color: DoorColor::Uncolored },
        2 => EdgeDesc { id: 2, node_a: 2, node_b: 3, color: DoorColor::Uncolored },
        3 => EdgeDesc { id: 3, node_a: 2, node_b: 33, color: DoorColor::Blue },
        4 => EdgeDesc { id: 4, node_a: 2, node_b: 35, color: DoorColor::Green },
        5 => EdgeDesc { id: 5, node_a: 3, node_b: 4, color: DoorColor::Uncolored },
        6 => EdgeDesc { id: 6, node_a: 3, node_b: 10, color: DoorColor::Uncolored },
        7 => EdgeDesc { id: 7, node_a: 4, node_b: 5, color: DoorColor::Uncolored },
        8 => EdgeDesc { id: 8, node_a: 5, node_b: 6, color: DoorColor::Uncolored },
        9 => EdgeDesc { id: 9, node_a: 5, node_b: 32, color: DoorColor::Blue },
        10 => EdgeDesc { id: 10, node_a: 6, node_b: 7, color: DoorColor::Uncolored },
        11 => EdgeDesc { id: 11, node_a: 7, node_b: 8, color: DoorColor::Uncolored },
        12 => EdgeDesc { id: 12, node_a: 8, node_b: 9, color: DoorColor::Uncolored },
        13 => EdgeDesc { id: 13, node_a: 8, node_b: 31, color: DoorColor::Green },
        14 => EdgeDesc { id: 14, node_a: 9, node_b: 34, color: DoorColor::Blue },
        15 => EdgeDesc { id: 15, node_a: 10, node_b: 11, color: DoorColor::Uncolored },
        16 => EdgeDesc { id: 16, node_a: 11, node_b: 12, color: DoorColor::Uncolored },
        17 => EdgeDesc { id: 17, node_a: 12, node_b: 13, color: DoorColor::Uncolored },
        18 => EdgeDesc { id: 18, node_a: 12, node_b: 29, color: DoorColor::Blue },
        19 => EdgeDesc { id: 19, node_a: 13, node_b: 16, color: DoorColor::Uncolored },
        20 => EdgeDesc { id: 20, node_a: 13, node_b: 30, color: DoorColor::Green },
        21 => EdgeDesc { id: 21, node_a: 16, node_b: 17, color: DoorColor::Uncolored },
        22 => EdgeDesc { id: 22, node_a: 17, node_b: 18, color: DoorColor::Uncolored },
        23 => EdgeDesc { id: 23, node_a: 18, node_b: 19, color: DoorColor::Uncolored },
        24 => EdgeDesc { id: 24, node_a: 18, node_b: 29, color: DoorColor::Green },
        25 => EdgeDesc { id: 25, node_a: 19, node_b: 20, color: DoorColor::Uncolored },
        26 => EdgeDesc { id: 26, node_a: 19, node_b: 25, color: DoorColor::Blue },
        27 => EdgeDesc { id: 27, node_a: 20, node_b: 21, color: DoorColor::Uncolored },
        28 => EdgeDesc { id: 28, node_a: 21, node_b: 22, color: DoorColor::Uncolored },
        29 => EdgeDesc { id: 29, node_a: 22, node_b: 23, color: DoorColor::Uncolored },
        30 => EdgeDesc { id: 30, node_a: 22, node_b: 24, color: DoorColor::Green },
        31 => EdgeDesc { id: 31, node_a: 22, node_b: 28, color: DoorColor::Blue },
        32 => EdgeDesc { id: 32, node_a: 16, node_b: 15, color: DoorColor::Uncolored },
        33 => EdgeDesc { id: 33, node_a: 15, node_b: 14, color: DoorColor::Uncolored },
        34 => EdgeDesc { id: 34, node_a: 15, node_b: 26, color: DoorColor::Green },
        35 => EdgeDesc { id: 35, node_a: 14, node_b: 27, color: DoorColor::Blue },
        36 => EdgeDesc { id: 36, node_a: 24, node_b: 25, color: DoorColor::Uncolored },
        37 => EdgeDesc { id: 37, node_a: 25, node_b: 26, color: DoorColor::Uncolored },
        38 => EdgeDesc { id: 38, node_a: 26, node_b: 27, color: DoorColor::Uncolored },
        39 => EdgeDesc { id: 39, node_a: 28, node_b: 29, color: DoorColor::Uncolored },
        40 => EdgeDesc { id: 40, node_a: 29, node_b: 32, color: DoorColor::Uncolored },
        41 => EdgeDesc { id: 41, node_a: 32, node_b: 31, color: DoorColor::Uncolored },
        42 => EdgeDesc { id: 42, node_a: 31, node_b: 28, color: DoorColor::Uncolored },
        43 => EdgeDesc { id: 43, node_a: 30, node_b: 33, color: DoorColor::Uncolored },
        44 => EdgeDesc { id: 44, node_a: 34, node_b: 35, color: DoorColor::Uncolored },
        _ => EdgeDesc { id: e, node_a: 0, node_b: 0, color: DoorColor::Uncolored },
    }
}

/// The static description of an edge.
pub fn edge_desc(e: EdgeId) -> (d: EdgeDesc)
    requires
        e < EDGE_COUNT,
    ensures
        d == spec_edge(e),
{
    match e {
        0 => EdgeDesc { id: 0, node_a: 0, node_b: 1, color: DoorColor::Uncolored },
        1 => EdgeDesc { id: 1, node_a: 1, node_b: 2, color: DoorColor::Uncolored },
        2 => EdgeDesc { id: 2, node_a: 2, node_b: 3, color: DoorColor::Uncolored },
        3 => EdgeDesc { id: 3, node_a: 2, node_b: 33, color: DoorColor::Blue },
        4 => EdgeDesc { id: 4, node_a: 2, node_b: 35, color: DoorColor::Green },
        5 => EdgeDesc { id: 5, node_a: 3, node_b: 4, color: DoorColor::Uncolored },
        6 => EdgeDesc { id: 6, node_a: 3, node_b: 10, color: DoorColor::Uncolored },
        7 => EdgeDesc { id: 7, node_a: 4, node_b: 5, color: DoorColor::Uncolored },
        8 => EdgeDesc { id: 8, node_a: 5, node_b: 6, color: DoorColor::Uncolored },
        9 => EdgeDesc { id: 9, node_a: 5, node_b: 32, color: DoorColor::Blue },
        10 => EdgeDesc { id: 10, node_a: 6, node_b: 7, color: DoorColor::Uncolored },
        11 => EdgeDesc { id: 11, node_a: 7, node_b: 8, color: DoorColor::Uncolored },
        12 => EdgeDesc { id: 12, node_a: 8, node_b: 9, color: DoorColor::Uncolored },
        13 => EdgeDesc { id: 13, node_a: 8, node_b: 31, color: DoorColor::Green },
        14 => EdgeDesc { id: 14, node_a: 9, node_b: 34, color: DoorColor::Blue },
        15 => EdgeDesc { id: 15, node_a: 10, node_b: 11, color: DoorColor::Uncolored },
        16 => EdgeDesc { id: 16, node_a: 11, node_b: 12, color: DoorColor::Uncolored },
        17 => EdgeDesc { id: 17, node_a: 12, node_b: 13, color: DoorColor::Uncolored },
        18 => EdgeDesc { id: 18, node_a: 12, node_b: 29, color: DoorColor::Blue },
        19 => EdgeDesc { id: 19, node_a: 13, node_b: 16, color: DoorColor::Uncolored },
        20 => EdgeDesc { id: 20, node_a: 13, node_b: 30, color: DoorColor::Green },
        21 => EdgeDesc { id: 21, node_a: 16, node_b: 17, color: DoorColor::Uncolored },
        22 => EdgeDesc { id: 22, node_a: 17, node_b: 18, color: DoorColor::Uncolored },
        23 => EdgeDesc { id: 23, node_a: 18, node_b: 19, color: DoorColor::Uncolored },
        24 => EdgeDesc { id: 24, node_a: 18, node_b: 29, color: DoorColor::Green },
        25 => EdgeDesc { id: 25, node_a: 19, node_b: 20, color: DoorColor::Uncolored },
        26 => EdgeDesc { id: 26, node_a: 19, node_b: 25, color: DoorColor::Blue },
        27 => EdgeDesc { id: 27, node_a: 20, node_b: 21, color: DoorColor::Uncolored },
        28 => EdgeDesc { id: 28, node_a: 21, node_b: 22, color: DoorColor::Uncolored },
        29 => EdgeDesc { id: 29, node_a: 22, node_b: 23, color: DoorColor::Uncolored },
        30 => EdgeDesc { id: 30, node_a: 22, node_b: 24, color: DoorColor::Green },
        31 => EdgeDesc { id: 31, node_a: 22, node_b: 28, color: DoorColor::Blue },
        32 => EdgeDesc { id: 32, node_a: 16, node_b: 15, color: DoorColor::Uncolored },
        33 => EdgeDesc { id: 33, node_a: 15, node_b: 14, color: DoorColor::Uncolored },
        34 => EdgeDesc { id: 34, node_a: 15, node_b: 26, color: DoorColor::Green },
        35 => EdgeDesc { id: 35, node_a: 14, node_b: 27, color: DoorColor::Blue },
        36 => EdgeDesc { id: 36, node_a: 24, node_b: 25, color: DoorColor::Uncolored },
        37 => EdgeDesc { id: 37, node_a: 25, node_b: 26, color: DoorColor::Uncolored },
        38 => EdgeDesc { id: 38, node_a: 26, node_b: 27, color: DoorColor::Uncolored },
        39 => EdgeDesc { id: 39, node_a: 28, node_b: 29, color: DoorColor::Uncolored },
        40 => EdgeDesc { id: 40, node_a: 29, node_b: 32, color: DoorColor::Uncolored },
        41 => EdgeDesc { id: 41, node_a: 32, node_b: 31, color: DoorColor::Uncolored },
        42 => EdgeDesc { id: 42, node_a: 31, node_b: 28, color: DoorColor::Uncolored },
        43 => EdgeDesc { id: 43, node_a: 30, node_b: 33, color: DoorColor::Uncolored },
        44 => EdgeDesc { id: 44, node_a: 34, node_b: 35, color: DoorColor::Uncolored },
        _ => EdgeDesc { id: e, node_a: 0, node_b: 0, color: DoorColor::Uncolored },
    }
}

/// True when edge `e` has node `n` as one of its ends.
pub open spec fn incident(n: int, e: u8) -> bool {
    spec_edge(e).node_a == n || spec_edge(e).node_b == n
}

/// The edges with id below `k` that touch node `n`, in increasing id order.
pub open spec fn incident_upto(n: int, k: nat) -> Seq<EdgeId>
    decreases k,
{
    if k == 0 {
        seq![]
    } else {
        let e = (k - 1) as u8;
        incident_upto(n, (k - 1) as nat) + if incident(n, e) {
            seq![e]
        } else {
            seq![]
        }
    }
}

/// All edges that touch node `n`, in increasing id order.
pub open spec fn edges_at(n: int) -> Seq<EdgeId> {
    incident_upto(n, EDGE_COUNT as nat)
}

/// The node on the other side of `e` from `from`.
pub open spec fn spec_other_end(e: u8, from: int) -> int {
    if spec_edge(e).node_a == from {
        spec_edge(e).node_b as int
    } else {
        spec_edge(e).node_a as int
    }
}

/// Every edge joins two distinct nodes of the board.
pub proof fn lemma_edge_ends(e: u8)
    requires
        e < EDGE_COUNT,
    ensures
        spec_edge(e).id == e,
        spec_edge(e).node_a < NODE_COUNT,
        spec_edge(e).node_b < NODE_COUNT,
        spec_edge(e).node_a != spec_edge(e).node_b,
{
}

/// `incident_upto(n, k)` lists exactly the edges below `k` touching `n`,
/// without repetition and in increasing order; it grows with `k`.
pub proof fn lemma_incident_upto(n: int, k: nat)
    requires
        k <= 256,
    ensures
        incident_upto(n, k).len() <= k,
        forall|i: int| 0 <= i < incident_upto(n, k).len() ==> (#[trigger] incident_upto(n, k)[i]) < k
            && incident(n, incident_upto(n, k)[i]),
        forall|i: int, j: int|
            0 <= i < j < incident_upto(n, k).len() ==> (#[trigger] incident_upto(n, k)[i])
                < #[trigger] incident_upto(n, k)[j],
        forall|e: u8| e < k && incident(n, e) ==> #[trigger] incident_upto(n, k).contains(e),
    decreases k,
{
    if k > 0 {
        lemma_incident_upto(n, (k - 1) as nat);
        let prev = incident_upto(n, (k - 1) as nat);
        let e = (k - 1) as u8;
        assert forall|x: u8| x < k && incident(n, x) implies #[trigger] incident_upto(n, k).contains(x) by {
            if x < k - 1 {
                assert(prev.contains(x));
                let i = choose|i: int| 0 <= i < prev.len() && prev[i] == x;
                assert(incident_upto(n, k)[i] == x);
            } else {
                assert(incident_upto(n, k)[prev.len() as int] == x);
            }
        }
        assert forall|i: int, j: int| 0 <= i < j < incident_upto(n, k).len() implies (#[trigger] incident_upto(n, k)[i])
                < #[trigger] incident_upto(n, k)[j] by {
            if j < prev.len() {
                assert(prev[i] < prev[j]);
            } else {
                assert(prev[i] < k - 1);
            }
        }
    }
}

/// The length of `incident_upto(n, k)` grows with `k`, and strictly past an incident edge.
pub proof fn lemma_incident_upto_len(n: int, k: nat, m: nat)
    requires
        k <= m <= 256,
    ensures
        incident_upto(n, k).len() <= incident_upto(n, m).len(),
        k < m && incident(n, k as u8) && k < 256 ==> incident_upto(n, k).len() < incident_upto(
            n,
            m,
        ).len(),
    decreases m - k,
{
    if k < m {
        lemma_incident_upto_len(n, k, (m - 1) as nat);
        if k == m - 1 {
        } else {
            lemma_incident_upto_len(n, (k + 1) as nat, (m - 1) as nat);
        }
    }
}

/// Compressed-sparse-row adjacency table: the edges touching node `n`
/// are `edge_data[offsets[n]..offsets[n + 1]]`.
pub struct AdjacencyTable {
    pub edge_data: Vec<EdgeId>,
    pub offsets: Vec<u16>,
}

impl AdjacencyTable {
    /// The table lists, for every node, exactly the edges that touch it, in id order.
    pub open spec fn wf(&self) -> bool {
        &&& self.offsets@.len() == NODE_COUNT + 1
        &&& self.offsets@[0] == 0
        &&& self.offsets@[NODE_COUNT as int] == self.edge_data@.len()
        &&& forall|n: int| 0 <= n < NODE_COUNT ==> #[trigger] self.offsets@[n] <= self.offsets@[n + 1]
        &&& forall|n: int|
            0 <= n < NODE_COUNT ==> self.edge_data@.subrange(
                #[trigger] self.offsets@[n] as int,
                self.offsets@[n + 1] as int,
            ) == edges_at(n)
    }

    /// Returns all edge ids incident to `node`.
    pub fn edges_of(&self, node: NodeId) -> (es: &[EdgeId])
        requires
            self.wf(),
            node < NODE_COUNT,
        ensures
            es@ == edges_at(node as int),
    {
        let n = node as usize;
        let start = self.offsets[n] as usize;
        let end = self.offsets[n + 1] as usize;
        proof {
            assert(self.offsets@[n as int] <= self.offsets@[n + 1]);
            lemma_offsets_bounded(self, n as int + 1);
        }
        &self.edge_data.as_slice()[start..end]
    }

    /// Returns the node on the other side of `edge` from `from`.
    pub fn other_end(&self, edge: EdgeId, from: NodeId) -> (n: NodeId)
        requires
            edge < EDGE_COUNT,
        ensures
            n == spec_other_end(edge, from as int),
    {
        let e = edge_desc(edge);
        if e.node_a == from {
            e.node_b
        } else {
            e.node_a
        }
    }
}

/// In a well-formed table every offset lies within the edge data.
proof fn lemma_offsets_bounded(t: &AdjacencyTable, n: int)
    requires
        t.wf(),
        0 <= n <= NODE_COUNT,
    ensures
        t.offsets@[n] <= t.edge_data@.len(),
    decreases NODE_COUNT - n,
{
    if n < NODE_COUNT {
        assert(t.offsets@[n] <= t.offsets@[n + 1]);
        lemma_offsets_bounded(t, n + 1);
    }
}

/// The sum of the first `k` entries of `s`.
pub open spec fn prefix_total(s: Seq<u16>, k: nat) -> int
    decreases k,
{
    if k == 0 {
        0
    } else {
        prefix_total(s, (k - 1) as nat) + s[k - 1]
    }
}

/// All-zero entries sum to zero.
proof fn lemma_prefix_total_zero(s: Seq<u16>, k: nat)
    requires
        k <= s.len(),
        forall|j: int| 0 <= j < k ==> #[trigger] s[j] == 0,
    ensures
        prefix_total(s, k) == 0,
    decreases k,
{
    if k > 0 {
        lemma_prefix_total_zero(s, (k - 1) as nat);
    }
}

/// Setting one entry changes the sum by the change at that entry.
proof fn lemma_prefix_total_update(s: Seq<u16>, j: int, v: u16, k: nat)
    requires
        0 <= j < s.len(),
        k <= s.len(),
    ensures
        prefix_total(s.update(j, v), k) + (if j < k { s[j] as int } else { 0int }) == prefix_total(s, k) + (
        if j < k { v as int } else { 0int }),
    decreases k,
{
    if k > 0 {
        lemma_prefix_total_update(s, j, v, (k - 1) as nat);
    }
}

/// Builds the adjacency table of the board: counts the edges of each node,
/// turns the counts into offsets by prefix sums, then files every edge under
/// both of its ends.
#[verifier::rlimit(60)]
pub fn build_adjacency() -> (t: AdjacencyTable)
    ensures
        t.wf(),
        t.edge_data@.len() == 2 * EDGE_COUNT,
{
    // Pass 1: count incident edges per node.
    let mut degree = [0u16; NODE_COUNT];
    proof {
        lemma_prefix_total_zero(degree@, NODE_COUNT as nat);
    }
    let mut i: usize = 0;
    while i < EDGE_COUNT
        invariant
            i <= EDGE_COUNT,
            forall|n: int| 0 <= n < NODE_COUNT ==> #[trigger] degree@[n] == incident_upto(n, i as nat).len(),
            prefix_total(degree@, NODE_COUNT as nat) == 2 * i,
        decreases EDGE_COUNT - i,
    {
        let e = edge_desc(i as u8);
        proof {
            lemma_edge_ends(i as u8);
            assert forall|n: int| 0 <= n < NODE_COUNT implies incident_upto(n, i as nat).len() <= i by {
                lemma_incident_upto(n, i as nat);
            }
        }
        let a = e.node_a as usize;
        let b = e.node_b as usize;
        let ghost d0 = degree@;
        degree[a] = degree[a] + 1;
        let ghost d1 = degree@;
        degree[b] = degree[b] + 1;
        proof {
            lemma_prefix_total_update(d0, a as int, d1[a as int], NODE_COUNT as nat);
            lemma_prefix_total_update(d1, b as int, degree@[b as int], NODE_COUNT as nat);
            assert(d1 == d0.update(a as int, d1[a as int]));
            assert(degree@ == d1.update(b as int, degree@[b as int]));
        }
        i = i + 1;
    }
    // Prefix sums: offsets[n] is the start of node n's edges.
    let mut offsets: Vec<u16> = Vec::new();
    offsets.push(0);
    let mut n: usize = 0;
    while n < NODE_COUNT
        invariant
            n <= NODE_COUNT,
            offsets@.len() == n + 1,
            offsets@[0] == 0,
            forall|m: int| 0 <= m < NODE_COUNT ==> #[trigger] degree@[m] == edges_at(m).len(),
            forall|m: int| 0 <= m < n ==> #[trigger] offsets@[m + 1] == offsets@[m] + degree@[m],
            forall|j: int, k: int| 0 <= j <= k <= n ==> #[trigger] offsets@[j] <= #[trigger] offsets@[k],
            offsets@[n as int] <= n * EDGE_COUNT,
            offsets@[n as int] == prefix_total(degree@, n as nat),
            prefix_total(degree@, NODE_COUNT as nat) == 2 * EDGE_COUNT,
        decreases NODE_COUNT - n,
    {
        proof {
            lemma_incident_upto(n as int, EDGE_COUNT as nat);
        }
        let next = offsets[n] + degree[n];
        offsets.push(next);
        n = n + 1;
    }
    let total = offsets[NODE_COUNT] as usize;
    // Pass 2: file every edge under both of its ends.
    let mut edge_data: Vec<EdgeId> = Vec::new();
    let mut z: usize = 0;
    while z < total
        invariant
            z <= total,
            edge_data@.len() == z,
        decreases total - z,
    {
        edge_data.push(0);
        z = z + 1;
    }
    let mut cursor = [0u16; NODE_COUNT];
    let mut c: usize = 0;
    while c < NODE_COUNT
        invariant
            c <= NODE_COUNT,
            offsets@.len() == NODE_COUNT + 1,
            forall|m: int| 0 <= m < c ==> #[trigger] cursor@[m] == offsets@[m],
        decreases NODE_COUNT - c,
    {
        cursor[c] = offsets[c];
        c = c + 1;
    }
    let mut i2: usize = 0;
    while i2 < EDGE_COUNT
        invariant
            i2 <= EDGE_COUNT,
            offsets@.len() == NODE_COUNT + 1,
            offsets@[0] == 0,
            edge_data@.len() == total,
            total == offsets@[NODE_COUNT as int],
            forall|m: int| 0 <= m < NODE_COUNT ==> #[trigger] offsets@[m + 1] == offsets@[m] + edges_at(m).len(),
            forall|j: int, k: int| 0 <= j <= k <= NODE_COUNT ==> #[trigger] offsets@[j] <= #[trigger] offsets@[k],
            forall|m: int|
                0 <= m < NODE_COUNT ==> #[trigger] cursor@[m] == offsets@[m] + incident_upto(m, i2 as nat).len(),
            forall|m: int|
                0 <= m < NODE_COUNT ==> edge_data@.subrange(#[trigger] offsets@[m] as int, cursor@[m] as int)
                    == incident_upto(m, i2 as nat),
        decreases EDGE_COUNT - i2,
    {
        let e = edge_desc(i2 as u8);
        let a = e.node_a as usize;
        let b = e.node_b as usize;
        let ghost old_data = edge_data@;
        let ghost old_cursor = cursor@;
        proof {
            lemma_edge_ends(i2 as u8);
            lemma_incident_upto_len(a as int, i2 as nat, EDGE_COUNT as nat);
            lemma_incident_upto_len(b as int, i2 as nat, EDGE_COUNT as nat);
            assert(offsets@[a + 1] <= offsets@[NODE_COUNT as int]);
            assert(offsets@[b + 1] <= offsets@[NODE_COUNT as int]);
        }
        let pa = cursor[a] as usize;
        edge_data[pa] = e.id;
        cursor[a] = cursor[a] + 1;
        let pb = cursor[b] as usize;
        edge_data[pb] = e.id;
        cursor[b] = cursor[b] + 1;
        proof {
            assert forall|m: int| 0 <= m < NODE_COUNT implies edge_data@.subrange(
                #[trigger] offsets@[m] as int,
                cursor@[m] as int,
            ) == incident_upto(m, (i2 + 1) as nat) by {
                lemma_incident_upto_len(m, i2 as nat, EDGE_COUNT as nat);
                if m == a as int || m == b as int {
                    assert(edge_data@.subrange(offsets@[m] as int, cursor@[m] as int) =~= old_data.subrange(
                        offsets@[m] as int,
                        old_cursor[m] as int,
                    ) + seq![i2 as u8]);
                } else {
                    assert(cursor@[m] == old_cursor[m]);
                    assert(cursor@[m] <= offsets@[m + 1]);
                    assert(offsets@[a as int] <= pa < offsets@[a + 1]);
                    assert(offsets@[b as int] <= pb < offsets@[b + 1]);
                    if m < a {
                        assert(offsets@[m + 1] <= offsets@[a as int]);
                    } else {
                        assert(offsets@[a + 1] <= offsets@[m]);
                    }
                    if m < b {
                        assert(offsets@[m + 1] <= offsets@[b as int]);
                    } else {
                        assert(offsets@[b + 1] <= offsets@[m]);
                    }
                    assert(edge_data@ == old_data.update(pa as int, i2 as u8).update(pb as int, i2 as u8));
                    assert(incident_upto(m, (i2 + 1) as nat) =~= incident_upto(m, i2 as nat));
                    assert(edge_data@.subrange(offsets@[m] as int, cursor@[m] as int) =~= old_data.subrange(
                        offsets@[m] as int,
                        old_cursor[m] as int,
                    ));
                }
            }
        }
        i2 = i2 + 1;
    }
    proof {
        assert forall|m: int| 0 <= m < NODE_COUNT implies #[trigger] offsets@[m] <= offsets@[m + 1] by {
            assert(offsets@[m] <= offsets@[m + 1]);
        }
    }
    AdjacencyTable { edge_data, offsets }
}

/// The edges with id below `k` of door color `c`, in increasing id order.
pub open spec fn colored_upto(c: DoorColor, k: nat) -> Seq<EdgeId>
    decreases k,
{
    if k == 0 {
        seq![]
    } else {
        let e = (k - 1) as u8;
        colored_upto(c, (k - 1) as nat) + if spec_edge(e).color == c {
            seq![e]
        } else {
            seq![]
        }
    }
}

/// All edges of door color `c`, in increasing id order.
pub open spec fn edges_of_color(c: DoorColor) -> Seq<EdgeId> {
    colored_upto(c, EDGE_COUNT as nat)
}

/// `colored_upto(c, k)` lists exactly the edges below `k` of color `c`.
pub proof fn lemma_colored_upto(c: DoorColor, k: nat)
    requires
        k <= 256,
    ensures
        colored_upto(c, k).len() <= k,
        forall|i: int|
            0 <= i < colored_upto(c, k).len() ==> (#[trigger] colored_upto(c, k)[i]) < k && spec_edge(
                colored_upto(c, k)[i],
            ).color == c,
        forall|e: u8| e < k && spec_edge(e).color == c ==> #[trigger] colored_upto(c, k).contains(e),
    decreases k,
{
    if k > 0 {
        lemma_colored_upto(c, (k - 1) as nat);
        let prev = colored_upto(c, (k - 1) as nat);
        assert forall|x: u8| x < k && spec_edge(x).color == c implies #[trigger] colored_upto(c, k).contains(x) by {
            if x < k - 1 {
                assert(prev.contains(x));
                let i = choose|i: int| 0 <= i < prev.len() && prev[i] == x;
                assert(colored_upto(c, k)[i] == x);
            } else {
                assert(colored_upto(c, k)[prev.len() as int] == x);
            }
        }
    }
}

/// The ids of all edges of door color `color`, in increasing order.
pub fn collect_edges_by_color(color: DoorColor) -> (es: Vec<EdgeId>)
    ensures
        es@ == edges_of_color(color),
{
    let mut out: Vec<EdgeId> = Vec::new();
    let mut i: usize = 0;
    while i < EDGE_COUNT
        invariant
            i <= EDGE_COUNT,
            out@ == colored_upto(color, i as nat),
        decreases EDGE_COUNT - i,
    {
        let e = edge_desc(i as u8);
        if e.color == color {
            out.push(e.id);
        }
        i = i + 1;
    }
    out
}

} // verus!
