//! The binary form of a game log.
//!
//! ```text
//! [8]  seed: u64, little-endian
//! [1]  figure_count: u8
//! [1]  variant flags: bit0 = draw_two, bit1 = draw_three, bit2 = door_cards, bit3 = numbered
//! [4]  action_count: u32, little-endian
//! per action:
//!   [1] tag
//!   [1] payload byte (only for MoveAlongEdge and PickupJewel)
//! ```
use vstd::prelude::*;

use crate::action::Action;
use crate::simulation::GameLog;
use crate::variant::Variant;

verus! {

/// Why a byte string is not a game log.
#[derive(Debug, Clone, Copy, PartialEq, Eq, Structural)]
pub enum LogError {
    /// The bytes end before the log does.
    UnexpectedEnd,
    /// An action starts with a tag that names no action.
    UnknownTag(u8),
}

/// The bytes of one action: its tag, then the edge or jewel it names.
pub open spec fn action_bytes(a: Action) -> Seq<u8> {
    match a {
        Action::RollDie => seq![0x00u8],
        Action::DrawGhostCard => seq![0x01u8],
        Action::MoveAlongEdge { edge } => seq![0x02u8, edge],
        Action::StopMoving => seq![0x03u8],
        Action::PickupJewel { jewel } => seq![0x04u8, jewel],
        Action::SkipPickup => seq![0x05u8],
        Action::DepositJewel => seq![0x06u8],
        Action::Fight => seq![0x07u8],
        Action::SkipCombat => seq![0x08u8],
        Action::EndTurn => seq![0x09u8],
    }
}

/// The bytes of a sequence of actions, one after the other.
pub open spec fn actions_bytes(acts: Seq<Action>) -> Seq<u8>
    decreases acts.len(),
{
    if acts.len() == 0 {
        seq![]
    } else {
        action_bytes(acts[0]) + actions_bytes(acts.skip(1))
    }
}

/// The action that starts at `pos`, and where the next one starts.
pub open spec fn decode_one(b: Seq<u8>, pos: int) -> Result<(Action, int), LogError> {
    if pos < 0 || pos >= b.len() {
        Err(LogError::UnexpectedEnd)
    } else {
        let tag = b[pos];
        if tag == 0x02 || tag == 0x04 {
            if pos + 1 >= b.len() {
                Err(LogError::UnexpectedEnd)
            } else if tag == 0x02 {
                Ok((Action::MoveAlongEdge { edge: b[pos + 1] }, pos + 2))
            } else {
                Ok((Action::PickupJewel { jewel: b[pos + 1] }, pos + 2))
            }
        } else if tag == 0x00 {
            Ok((Action::RollDie, pos + 1))
        } else if tag == 0x01 {
            Ok((Action::DrawGhostCard, pos + 1))
        } else if tag == 0x03 {
            Ok((Action::StopMoving, pos + 1))
        } else if tag == 0x05 {
            Ok((Action::SkipPickup, pos + 1))
        } else if tag == 0x06 {
            Ok((Action::DepositJewel, pos + 1))
        } else if tag == 0x07 {
            Ok((Action::Fight, pos + 1))
        } else if tag == 0x08 {
            Ok((Action::SkipCombat, pos + 1))
        } else if tag == 0x09 {
            Ok((Action::EndTurn, pos + 1))
        } else {
            Err(LogError::UnknownTag(tag))
        }
    }
}

/// The `count` actions that start at `pos`, or the first reason they cannot be read.
pub open spec fn decode_actions(b: Seq<u8>, pos: int, count: nat) -> Result<Seq<Action>, LogError>
    decreases count,
{
    if count == 0 {
        Ok(seq![])
    } else {
        match decode_one(b, pos) {
            Err(e) => Err(e),
            Ok((a, next)) => match decode_actions(b, next, (count - 1) as nat) {
                Ok(rest) => Ok(seq![a] + rest),
                Err(e) => Err(e),
            },
        }
    }
}

/// The eight bytes of `x`, least significant first.
pub open spec fn le_u64(x: u64) -> Seq<u8> {
    seq![
        x as u8,
        (x >> 8) as u8,
        (x >> 16) as u8,
        (x >> 24) as u8,
        (x >> 32) as u8,
        (x >> 40) as u8,
        (x >> 48) as u8,
        (x >> 56) as u8,
    ]
}

/// The four bytes of `x`, least significant first.
pub open spec fn le_u32(x: u32) -> Seq<u8> {
    seq![x as u8, (x >> 8) as u8, (x >> 16) as u8, (x >> 24) as u8]
}

/// The number whose little-endian bytes are `b[pos..pos + 8]`.
pub open spec fn read_u64(b: Seq<u8>, pos: int) -> u64 {
    (b[pos] as u64) | ((b[pos + 1] as u64) << 8u64) | ((b[pos + 2] as u64) << 16u64) | ((b[pos + 3] as u64)
        << 24u64) | ((b[pos + 4] as u64) << 32u64) | ((b[pos + 5] as u64) << 40u64) | ((b[pos + 6] as u64) << 48u64)
        | ((b[pos + 7] as u64) << 56u64)
}

/// The number whose little-endian bytes are `b[pos..pos + 4]`.
pub open spec fn read_u32(b: Seq<u8>, pos: int) -> u32 {
    (b[pos] as u32) | ((b[pos + 1] as u32) << 8u32) | ((b[pos + 2] as u32) << 16u32) | ((b[pos + 3] as u32) << 24u32)
}

/// The flag byte of a variant: one bit per option.
pub open spec fn variant_flags(v: Variant) -> u8 {
    ((if v.draw_two_card { 1u8 } else { 0u8 }) | (if v.draw_three_card { 2u8 } else { 0u8 }) | (if v.door_cards {
        4u8
    } else {
        0u8
    }) | (if v.numbered_jewels { 8u8 } else { 0u8 })) as u8
}

/// The variant a flag byte names; the four high bits are ignored.
pub open spec fn flags_variant(f: u8) -> Variant {
    Variant {
        draw_two_card: f & 0x01 != 0,
        draw_three_card: f & 0x02 != 0,
        door_cards: f & 0x04 != 0,
        numbered_jewels: f & 0x08 != 0,
    }
}

/// The bytes of a log of game `seed`, `v`, `fc` with actions `acts`.
pub open spec fn log_bytes(seed: u64, v: Variant, fc: u8, acts: Seq<Action>) -> Seq<u8> {
    le_u64(seed) + seq![fc, variant_flags(v)] + le_u32(acts.len() as u32) + actions_bytes(acts)
}

/// What a byte string holds as a log: its seed, variant, figure count and
/// actions, or the first reason it is no log. Bytes after the last action are ignored.
pub open spec fn decode_log(b: Seq<u8>) -> Result<(u64, Variant, u8, Seq<Action>), LogError> {
    if b.len() < 14 {
        Err(LogError::UnexpectedEnd)
    } else {
        match decode_actions(b, 14, read_u32(b, 10) as nat) {
            Ok(acts) => Ok((read_u64(b, 0), flags_variant(b[9]), b[8], acts)),
            Err(e) => Err(e),
        }
    }
}

/// Appends the bytes of `action`.
pub fn encode_action(out: &mut Vec<u8>, action: Action)
    ensures
        final(out)@ == old(out)@ + action_bytes(action),
{
    match action {
        Action::RollDie => out.push(0x00),
        Action::DrawGhostCard => out.push(0x01),
        Action::MoveAlongEdge { edge } => {
            out.push(0x02);
            out.push(edge);
        },
        Action::StopMoving => out.push(0x03),
        Action::PickupJewel { jewel } => {
            out.push(0x04);
            out.push(jewel);
        },
        Action::SkipPickup => out.push(0x05),
        Action::DepositJewel => out.push(0x06),
        Action::Fight => out.push(0x07),
        Action::SkipCombat => out.push(0x08),
        Action::EndTurn => out.push(0x09),
    }
    proof {
        assert(final(out)@ =~= old(out)@ + action_bytes(action));
    }
}

/// Reads the action that starts at `pos` (see `decode_one`).
pub fn decode_action(bytes: &[u8], pos: usize) -> (r: Result<(Action, usize), LogError>)
    ensures
        r matches Ok((a, next)) ==> decode_one(bytes@, pos as int) == Ok::<(Action, int), LogError>((a, next as int)),
        r matches Err(e) ==> decode_one(bytes@, pos as int) == Err::<(Action, int), LogError>(e),
{
    if pos >= bytes.len() {
        return Err(LogError::UnexpectedEnd);
    }
    let tag = bytes[pos];
    let action = match tag {
        0x00 => Action::RollDie,
        0x01 => Action::DrawGhostCard,
        0x02 => {
            if pos + 1 >= bytes.len() {
                return Err(LogError::UnexpectedEnd);
            }
            Action::MoveAlongEdge { edge: bytes[pos + 1] }
        },
        0x03 => Action::StopMoving,
        0x04 => {
            if pos + 1 >= bytes.len() {
                return Err(LogError::UnexpectedEnd);
            }
            Action::PickupJewel { jewel: bytes[pos + 1] }
        },
        0x05 => Action::SkipPickup,
        0x06 => Action::DepositJewel,
        0x07 => Action::Fight,
        0x08 => Action::SkipCombat,
        0x09 => Action::EndTurn,
        _ => {
            return Err(LogError::UnknownTag(tag));
        },
    };
    let next = if tag == 0x02 || tag == 0x04 {
        pos + 2
    } else {
        pos + 1
    };
    Ok((action, next))
}

/// Appending an action appends its bytes.
proof fn lemma_actions_bytes_push(acts: Seq<Action>, a: Action)
    ensures
        actions_bytes(acts.push(a)) == actions_bytes(acts) + action_bytes(a),
    decreases acts.len(),
{
    if acts.len() == 0 {
        assert(acts.push(a).skip(1) =~= Seq::<Action>::empty());
        assert(actions_bytes(acts.push(a).skip(1)) == Seq::<u8>::empty());
        assert(actions_bytes(acts) == Seq::<u8>::empty());
        assert(actions_bytes(acts.push(a)) =~= action_bytes(a));
    } else {
        lemma_actions_bytes_push(acts.skip(1), a);
        assert(acts.push(a).skip(1) =~= acts.skip(1).push(a));
        assert(acts.push(a)[0] == acts[0]);
        assert(actions_bytes(acts.push(a)) =~= action_bytes(acts[0]) + (actions_bytes(acts.skip(1)) + action_bytes(a)));
    }
}

/// The bytes of actions, wherever they stand, read back as those actions.
proof fn lemma_decode_encoded(b: Seq<u8>, pos: int, acts: Seq<Action>)
    requires
        0 <= pos,
        pos + actions_bytes(acts).len() <= b.len(),
        b.subrange(pos, pos + actions_bytes(acts).len()) == actions_bytes(acts),
    ensures
        decode_actions(b, pos, acts.len()) == Ok::<Seq<Action>, LogError>(acts),
    decreases acts.len(),
{
    if acts.len() > 0 {
        let a = acts[0];
        let ab = action_bytes(a);
        let rest = acts.skip(1);
        let n = actions_bytes(acts).len();
        assert(actions_bytes(acts) == ab + actions_bytes(rest));
        assert forall|i: int| 0 <= i < ab.len() implies b[pos + i] == ab[i] by {
            assert(b.subrange(pos, pos + n)[i] == b[pos + i]);
        }
        assert(b[pos] == ab[0]);
        match a {
            Action::MoveAlongEdge { edge } => {
                assert(b[pos + 1] == ab[1]);
            },
            Action::PickupJewel { jewel } => {
                assert(b[pos + 1] == ab[1]);
            },
            _ => {},
        }
        assert(decode_one(b, pos) == Ok::<(Action, int), LogError>((a, pos + ab.len())));
        assert(b.subrange(pos + ab.len(), pos + n) =~= actions_bytes(rest)) by {
            assert forall|i: int| 0 <= i < actions_bytes(rest).len() implies b.subrange(pos + ab.len(), pos + n)[i]
                == actions_bytes(rest)[i] by {
                assert(b.subrange(pos, pos + n)[ab.len() + i] == b[pos + ab.len() + i]);
            }
        }
        lemma_decode_encoded(b, pos + ab.len(), rest);
        assert(seq![a] + rest =~= acts);
        assert(decode_actions(b, pos, acts.len()) == Ok::<Seq<Action>, LogError>(seq![a] + rest));
    } else {
        assert(acts =~= Seq::<Action>::empty());
    }
}

/// The bytes of a number read back as that number.
proof fn lemma_le_roundtrip(x: u64, y: u32)
    ensures
        read_u64(le_u64(x), 0) == x,
        read_u32(le_u32(y), 0) == y,
{
    assert(x == ((x as u8) as u64) | (((x >> 8) as u8) as u64) << 8u64 | (((x >> 16) as u8) as u64) << 16u64 | (((x
        >> 24) as u8) as u64) << 24u64 | (((x >> 32) as u8) as u64) << 32u64 | (((x >> 40) as u8) as u64) << 40u64 | (((x
        >> 48) as u8) as u64) << 48u64 | (((x >> 56) as u8) as u64) << 56u64) by (bit_vector);
    assert(y == ((y as u8) as u32) | (((y >> 8) as u8) as u32) << 8u32 | (((y >> 16) as u8) as u32) << 16u32 | (((y
        >> 24) as u8) as u32) << 24u32) by (bit_vector);
}

/// The flag byte of a variant reads back as that variant.
proof fn lemma_flags_roundtrip(v: Variant)
    ensures
        flags_variant(variant_flags(v)) == v,
{
    let a = v.draw_two_card;
    let b = v.draw_three_card;
    let c = v.door_cards;
    let d = v.numbered_jewels;
    let f = variant_flags(v);
    assert(f == ((if a { 1u8 } else { 0u8 }) | (if b { 2u8 } else { 0u8 }) | (if c { 4u8 } else { 0u8 }) | (if d {
        8u8
    } else {
        0u8
    })) as u8);
    assert((f & 0x01 != 0) == a && (f & 0x02 != 0) == b && (f & 0x04 != 0) == c && (f & 0x08 != 0) == d) by (bit_vector)
        requires
            f == ((if a { 1u8 } else { 0u8 }) | (if b { 2u8 } else { 0u8 }) | (if c { 4u8 } else { 0u8 }) | (if d {
                8u8
            } else {
                0u8
            })) as u8,
    ;
}

/// A log written to bytes reads back as the same log.
pub proof fn lemma_log_roundtrip(seed: u64, v: Variant, fc: u8, acts: Seq<Action>)
    requires
        acts.len() <= u32::MAX,
    ensures
        decode_log(log_bytes(seed, v, fc, acts)) == Ok::<(u64, Variant, u8, Seq<Action>), LogError>((seed, v, fc, acts)),
{
    let b = log_bytes(seed, v, fc, acts);
    let n = acts.len() as u32;
    lemma_le_roundtrip(seed, n);
    lemma_flags_roundtrip(v);
    assert(b.len() == 14 + actions_bytes(acts).len());
    assert(read_u64(b, 0) == read_u64(le_u64(seed), 0));
    assert(read_u32(b, 10) == read_u32(le_u32(n), 0));
    assert(b.subrange(14, 14 + actions_bytes(acts).len() as int) =~= actions_bytes(acts));
    lemma_decode_encoded(b, 14, acts);
}

/// Appends the little-endian bytes of `x`.
fn push_u64(out: &mut Vec<u8>, x: u64)
    ensures
        final(out)@ == old(out)@ + le_u64(x),
{
    out.push(x as u8);
    out.push((x >> 8) as u8);
    out.push((x >> 16) as u8);
    out.push((x >> 24) as u8);
    out.push((x >> 32) as u8);
    out.push((x >> 40) as u8);
    out.push((x >> 48) as u8);
    out.push((x >> 56) as u8);
    proof {
        assert(final(out)@ =~= old(out)@ + le_u64(x));
    }
}

/// Appends the little-endian bytes of `x`.
fn push_u32(out: &mut Vec<u8>, x: u32)
    ensures
        final(out)@ == old(out)@ + le_u32(x),
{
    out.push(x as u8);
    out.push((x >> 8) as u8);
    out.push((x >> 16) as u8);
    out.push((x >> 24) as u8);
    proof {
        assert(final(out)@ =~= old(out)@ + le_u32(x));
    }
}

impl GameLog {
    /// The log as bytes (see the format above). The action count is written as
    /// 32 bits: a log of more than `u32::MAX` actions gets its count truncated.
    pub fn to_bytes(&self) -> (b: Vec<u8>)
        ensures
            b@ == log_bytes(self.seed, self.variant, self.figure_count, self.actions@),
    {
        let mut out: Vec<u8> = Vec::new();
        push_u64(&mut out, self.seed);
        out.push(self.figure_count);
        let v = self.variant;
        let flags: u8 = (if v.draw_two_card { 1u8 } else { 0u8 }) | (if v.draw_three_card { 2u8 } else { 0u8 }) | (
        if v.door_cards {
            4u8
        } else {
            0u8
        }) | (if v.numbered_jewels { 8u8 } else { 0u8 });
        out.push(flags);
        push_u32(&mut out, self.actions.len() as u32);
        let ghost header = out@;
        let mut i: usize = 0;
        while i < self.actions.len()
            invariant
                i <= self.actions@.len(),
                out@ == header + actions_bytes(self.actions@.take(i as int)),
            decreases self.actions@.len() - i,
        {
            proof {
                lemma_actions_bytes_push(self.actions@.take(i as int), self.actions@[i as int]);
                assert(self.actions@.take(i as int).push(self.actions@[i as int]) =~= self.actions@.take(i + 1));
            }
            encode_action(&mut out, self.actions[i]);
            i = i + 1;
        }
        proof {
            assert(self.actions@.take(self.actions@.len() as int) =~= self.actions@);
            assert(out@ =~= log_bytes(self.seed, self.variant, self.figure_count, self.actions@));
        }
        out
    }

    /// Reads a log from bytes (see the format above); bytes after the last action are ignored.
    pub fn from_bytes(bytes: &[u8]) -> (r: Result<GameLog, LogError>)
        ensures
            r matches Ok(log) ==> decode_log(bytes@) == Ok::<(u64, Variant, u8, Seq<Action>), LogError>(
                (log.seed, log.variant, log.figure_count, log.actions@),
            ),
            r matches Err(e) ==> decode_log(bytes@) == Err::<(u64, Variant, u8, Seq<Action>), LogError>(e),
    {
        if bytes.len() < 14 {
            return Err(LogError::UnexpectedEnd);
        }
        let seed: u64 = (bytes[0] as u64) | ((bytes[1] as u64) << 8u64) | ((bytes[2] as u64) << 16u64) | ((
        bytes[3] as u64) << 24u64) | ((bytes[4] as u64) << 32u64) | ((bytes[5] as u64) << 40u64) | ((bytes[6] as u64)
            << 48u64) | ((bytes[7] as u64) << 56u64);
        let figure_count = bytes[8];
        let flags = bytes[9];
        let variant = Variant {
            draw_two_card: flags & 0x01 != 0,
            draw_three_card: flags & 0x02 != 0,
            door_cards: flags & 0x04 != 0,
            numbered_jewels: flags & 0x08 != 0,
        };
        let count: u32 = (bytes[10] as u32) | ((bytes[11] as u32) << 8u32) | ((bytes[12] as u32) << 16u32) | ((
        bytes[13] as u32) << 24u32);
        let ghost b = bytes@;
        let mut actions: Vec<Action> = Vec::new();
        let mut pos: usize = 14;
        let mut i: u32 = 0;
        while i < count
            invariant
                b == bytes@,
                i <= count,
                14 <= pos <= b.len(),
                count == read_u32(b, 10),
                decode_actions(b, 14, count as nat) == match decode_actions(b, pos as int, (count - i) as nat) {
                    Ok(rest) => Ok(actions@ + rest),
                    Err(e) => Err(e),
                },
            decreases count - i,
        {
            match decode_action(bytes, pos) {
                Err(e) => {
                    return Err(e);
                },
                Ok((a, next)) => {
                    let ghost before = actions@;
                    proof {
                        match decode_actions(b, next as int, (count - i - 1) as nat) {
                            Ok(rest) => {
                                assert(before.push(a) + rest =~= before + (seq![a] + rest));
                            },
                            Err(_) => {},
                        }
                    }
                    actions.push(a);
                    pos = next;
                    i = i + 1;
                },
            }
        }
        proof {
            assert(actions@ + Seq::<Action>::empty() =~= actions@);
        }
        Ok(GameLog { seed, variant, figure_count, actions })
    }
}

} // verus!
