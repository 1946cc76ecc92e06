//! Big-endian integers as they stand on the wire.
//!
//! Every integer of the format is stored most significant byte first.  The
//! functions here say what the bytes of a value are, and what value stands at
//! a position of a byte sequence; signed integers are stored in two's
//! complement.

use vstd::prelude::*;

verus! {

/// The two's complement image of a signed 8-bit integer.
pub open spec fn unsigned8(v: i8) -> u8 {
    if v >= 0 {
        v as u8
    } else {
        (v + 0x100) as u8
    }
}

/// The signed 8-bit integer with the given two's complement image.
pub open spec fn signed8(u: u8) -> i8 {
    if u < 0x80 {
        u as i8
    } else {
        (u - 0x100) as i8
    }
}

/// The two's complement image of a signed 16-bit integer.
pub open spec fn unsigned16(v: i16) -> u16 {
    if v >= 0 {
        v as u16
    } else {
        (v + 0x1_0000) as u16
    }
}

/// The signed 16-bit integer with the given two's complement image.
pub open spec fn signed16(u: u16) -> i16 {
    if u < 0x8000 {
        u as i16
    } else {
        (u - 0x1_0000) as i16
    }
}

/// The two's complement image of a signed 32-bit integer.
pub open spec fn unsigned32(v: i32) -> u32 {
    if v >= 0 {
        v as u32
    } else {
        (v + 0x1_0000_0000) as u32
    }
}

/// The signed 32-bit integer with the given two's complement image.
pub open spec fn signed32(u: u32) -> i32 {
    if u < 0x8000_0000 {
        u as i32
    } else {
        (u - 0x1_0000_0000) as i32
    }
}

/// The two's complement image of a signed 64-bit integer.
pub open spec fn unsigned64(v: i64) -> u64 {
    if v >= 0 {
        v as u64
    } else {
        (v + 0x1_0000_0000_0000_0000) as u64
    }
}

/// The signed 64-bit integer with the given two's complement image.
pub open spec fn signed64(u: u64) -> i64 {
    if u < 0x8000_0000_0000_0000 {
        u as i64
    } else {
        (u - 0x1_0000_0000_0000_0000) as i64
    }
}

/// The wire form of an unsigned 16-bit integer.
pub open spec fn u16_bytes(v: u16) -> Seq<u8> {
    seq![(v / 0x100) as u8, (v % 0x100) as u8]
}

/// The wire form of an unsigned 24-bit integer; `v` is below `2^24`.
pub open spec fn u24_bytes(v: u32) -> Seq<u8>
    recommends
        v < 0x100_0000,
{
    seq![(v / 0x1_0000) as u8, (v / 0x100 % 0x100) as u8, (v % 0x100) as u8]
}

/// The wire form of an unsigned 32-bit integer.
pub open spec fn u32_bytes(v: u32) -> Seq<u8> {
    seq![
        (v / 0x100_0000) as u8,
        (v / 0x1_0000 % 0x100) as u8,
        (v / 0x100 % 0x100) as u8,
        (v % 0x100) as u8,
    ]
}

/// The wire form of an unsigned 64-bit integer.
pub open spec fn u64_bytes(v: u64) -> Seq<u8> {
    u32_bytes((v / 0x1_0000_0000) as u32) + u32_bytes((v % 0x1_0000_0000) as u32)
}

/// The wire form of a signed 8-bit integer.
pub open spec fn i8_bytes(v: i8) -> Seq<u8> {
    seq![unsigned8(v)]
}

/// The wire form of a signed 16-bit integer.
pub open spec fn i16_bytes(v: i16) -> Seq<u8> {
    u16_bytes(unsigned16(v))
}

/// The wire form of a signed 32-bit integer.
pub open spec fn i32_bytes(v: i32) -> Seq<u8> {
    u32_bytes(unsigned32(v))
}

/// The wire form of a signed 64-bit integer.
pub open spec fn i64_bytes(v: i64) -> Seq<u8> {
    u64_bytes(unsigned64(v))
}

/// Whether `n` bytes stand at `pos` in `s`.
pub open spec fn has_bytes(s: Seq<u8>, pos: int, n: int) -> bool {
    0 <= pos && 0 <= n && pos + n <= s.len()
}

/// The unsigned 16-bit integer whose wire form stands at `pos`.
pub open spec fn u16_at(s: Seq<u8>, pos: int) -> u16
    recommends
        has_bytes(s, pos, 2),
{
    (s[pos] as int * 0x100 + s[pos + 1] as int) as u16
}

/// The unsigned 24-bit integer whose wire form stands at `pos`.
pub open spec fn u24_at(s: Seq<u8>, pos: int) -> u32
    recommends
        has_bytes(s, pos, 3),
{
    (s[pos] as int * 0x1_0000 + s[pos + 1] as int * 0x100 + s[pos + 2] as int) as u32
}

/// The unsigned 32-bit integer whose wire form stands at `pos`.
pub open spec fn u32_at(s: Seq<u8>, pos: int) -> u32
    recommends
        has_bytes(s, pos, 4),
{
    (s[pos] as int * 0x100_0000 + s[pos + 1] as int * 0x1_0000 + s[pos + 2] as int * 0x100 + s[pos
        + 3] as int) as u32
}

/// The unsigned 64-bit integer whose wire form stands at `pos`.
pub open spec fn u64_at(s: Seq<u8>, pos: int) -> u64
    recommends
        has_bytes(s, pos, 8),
{
    (u32_at(s, pos) as int * 0x1_0000_0000 + u32_at(s, pos + 4) as int) as u64
}

/// The signed 8-bit integer whose wire form stands at `pos`.
pub open spec fn i8_at(s: Seq<u8>, pos: int) -> i8
    recommends
        has_bytes(s, pos, 1),
{
    signed8(s[pos])
}

/// The signed 16-bit integer whose wire form stands at `pos`.
pub open spec fn i16_at(s: Seq<u8>, pos: int) -> i16
    recommends
        has_bytes(s, pos, 2),
{
    signed16(u16_at(s, pos))
}

/// The signed 32-bit integer whose wire form stands at `pos`.
pub open spec fn i32_at(s: Seq<u8>, pos: int) -> i32
    recommends
        has_bytes(s, pos, 4),
{
    signed32(u32_at(s, pos))
}

/// The signed 64-bit integer whose wire form stands at `pos`.
pub open spec fn i64_at(s: Seq<u8>, pos: int) -> i64
    recommends
        has_bytes(s, pos, 8),
{
    signed64(u64_at(s, pos))
}

/// Whether `part` stands at `pos` in `s`.
pub open spec fn stands_at(s: Seq<u8>, pos: int, part: Seq<u8>) -> bool {
    &&& has_bytes(s, pos, part.len() as int)
    &&& forall|k: int| 0 <= k < part.len() ==> s[pos + k] == #[trigger] part[k]
}

/// A part stands in a concatenation right after what is in front of it.
pub proof fn lemma_stands_in_concat(front: Seq<u8>, part: Seq<u8>, back: Seq<u8>)
    ensures
        stands_at(front + part + back, front.len() as int, part),
{
    let s = front + part + back;
    assert forall|k: int| 0 <= k < part.len() implies s[front.len() + k] == #[trigger] part[k] by {
        assert(s[front.len() + k] == (front + part)[front.len() + k]);
    }
}

/// Reading where the wire form of an unsigned 16-bit integer stands gives the integer back.
pub proof fn lemma_u16_round_trip(s: Seq<u8>, pos: int, v: u16)
    requires
        stands_at(s, pos, u16_bytes(v)),
    ensures
        u16_at(s, pos) == v,
{
    let b = u16_bytes(v);
    assert(s[pos] == b[0] && s[pos + 1] == b[1]);
}

/// Reading where the wire form of an unsigned 24-bit integer stands gives the integer back.
pub proof fn lemma_u24_round_trip(s: Seq<u8>, pos: int, v: u32)
    requires
        v < 0x100_0000,
        stands_at(s, pos, u24_bytes(v)),
    ensures
        u24_at(s, pos) == v,
{
    let b = u24_bytes(v);
    assert(s[pos] == b[0] && s[pos + 1] == b[1] && s[pos + 2] == b[2]);
}

/// Reading where the wire form of an unsigned 32-bit integer stands gives the integer back.
pub proof fn lemma_u32_round_trip(s: Seq<u8>, pos: int, v: u32)
    requires
        stands_at(s, pos, u32_bytes(v)),
    ensures
        u32_at(s, pos) == v,
{
    let b = u32_bytes(v);
    assert(s[pos] == b[0] && s[pos + 1] == b[1] && s[pos + 2] == b[2] && s[pos + 3] == b[3]);
}

/// Reading where the wire form of an unsigned 64-bit integer stands gives the integer back.
pub proof fn lemma_u64_round_trip(s: Seq<u8>, pos: int, v: u64)
    requires
        stands_at(s, pos, u64_bytes(v)),
    ensures
        u64_at(s, pos) == v,
{
    let high = (v / 0x1_0000_0000) as u32;
    let low = (v % 0x1_0000_0000) as u32;
    let b = u64_bytes(v);
    assert forall|k: int| 0 <= k < 4 implies s[pos + k] == #[trigger] u32_bytes(high)[k] by {
        assert(s[pos + k] == b[k]);
    }
    assert forall|k: int| 0 <= k < 4 implies s[pos + 4 + k] == #[trigger] u32_bytes(low)[k] by {
        assert(s[pos + (4 + k)] == b[4 + k]);
    }
    lemma_u32_round_trip(s, pos, high);
    lemma_u32_round_trip(s, pos + 4, low);
}

/// The wire form of the unsigned integer that stands at a position is the
/// bytes that stand there.
pub proof fn lemma_bytes_of_reading(s: Seq<u8>, pos: int)
    ensures
        has_bytes(s, pos, 2) ==> u16_bytes(u16_at(s, pos)) == s.subrange(pos, pos + 2),
        has_bytes(s, pos, 3) ==> u24_at(s, pos) < 0x100_0000 && u24_bytes(u24_at(s, pos))
            == s.subrange(pos, pos + 3),
        has_bytes(s, pos, 4) ==> u32_bytes(u32_at(s, pos)) == s.subrange(pos, pos + 4),
        has_bytes(s, pos, 8) ==> u64_bytes(u64_at(s, pos)) == s.subrange(pos, pos + 8),
{
    if has_bytes(s, pos, 2) {
        assert(u16_bytes(u16_at(s, pos)) =~= s.subrange(pos, pos + 2));
    }
    if has_bytes(s, pos, 3) {
        assert(u24_bytes(u24_at(s, pos)) =~= s.subrange(pos, pos + 3));
    }
    if has_bytes(s, pos, 4) {
        assert(u32_bytes(u32_at(s, pos)) =~= s.subrange(pos, pos + 4));
    }
    if has_bytes(s, pos, 8) {
        let high = u32_at(s, pos);
        let low = u32_at(s, pos + 4);
        let v = u64_at(s, pos);
        assert(v / 0x1_0000_0000 == high && v % 0x1_0000_0000 == low);
        assert(u32_bytes(high) =~= s.subrange(pos, pos + 4));
        assert(u32_bytes(low) =~= s.subrange(pos + 4, pos + 8));
        assert(u64_bytes(v) =~= s.subrange(pos, pos + 8));
    }
}

/// The two's complement image of the signed reading of an image is the image.
pub proof fn lemma_image_of_signed(a: u8, b: u16, c: u32, d: u64)
    ensures
        unsigned8(signed8(a)) == a,
        unsigned16(signed16(b)) == b,
        unsigned32(signed32(c)) == c,
        unsigned64(signed64(d)) == d,
{
}

/// Append the wire form of an unsigned 8-bit integer.
pub fn push_u8(out: &mut Vec<u8>, v: u8)
    ensures
        final(out)@ == old(out)@ + seq![v],
{
    out.push(v);
    assert(out@ =~= old(out)@ + seq![v]);
}

/// Append the wire form of an unsigned 16-bit integer.
pub fn push_u16(out: &mut Vec<u8>, v: u16)
    ensures
        final(out)@ == old(out)@ + u16_bytes(v),
{
    out.push((v / 0x100) as u8);
    out.push((v % 0x100) as u8);
    assert(out@ =~= old(out)@ + u16_bytes(v));
}

/// Append the wire form of an unsigned 24-bit integer.
pub fn push_u24(out: &mut Vec<u8>, v: u32)
    requires
        v < 0x100_0000,
    ensures
        final(out)@ == old(out)@ + u24_bytes(v),
{
    out.push((v / 0x1_0000) as u8);
    out.push((v / 0x100 % 0x100) as u8);
    out.push((v % 0x100) as u8);
    assert(out@ =~= old(out)@ + u24_bytes(v));
}

/// Append the wire form of an unsigned 32-bit integer.
pub fn push_u32(out: &mut Vec<u8>, v: u32)
    ensures
        final(out)@ == old(out)@ + u32_bytes(v),
{
    out.push((v / 0x100_0000) as u8);
    out.push((v / 0x1_0000 % 0x100) as u8);
    out.push((v / 0x100 % 0x100) as u8);
    out.push((v % 0x100) as u8);
    assert(out@ =~= old(out)@ + u32_bytes(v));
}

/// Append the wire form of an unsigned 64-bit integer.
pub fn push_u64(out: &mut Vec<u8>, v: u64)
    ensures
        final(out)@ == old(out)@ + u64_bytes(v),
{
    let ghost before = out@;
    push_u32(out, (v / 0x1_0000_0000) as u32);
    push_u32(out, (v % 0x1_0000_0000) as u32);
    assert(out@ =~= before + u64_bytes(v));
}

/// Append the wire form of a signed 8-bit integer.
pub fn push_i8(out: &mut Vec<u8>, v: i8)
    ensures
        final(out)@ == old(out)@ + i8_bytes(v),
{
    let image: u8 = if v >= 0 {
        v as u8
    } else {
        (v as i16 + 0x100) as u8
    };
    push_u8(out, image);
}

/// Append the wire form of a signed 16-bit integer.
pub fn push_i16(out: &mut Vec<u8>, v: i16)
    ensures
        final(out)@ == old(out)@ + i16_bytes(v),
{
    let image: u16 = if v >= 0 {
        v as u16
    } else {
        (v as i32 + 0x1_0000) as u16
    };
    push_u16(out, image);
}

/// Append the wire form of a signed 32-bit integer.
pub fn push_i32(out: &mut Vec<u8>, v: i32)
    ensures
        final(out)@ == old(out)@ + i32_bytes(v),
{
    let image: u32 = if v >= 0 {
        v as u32
    } else {
        (v as i64 + 0x1_0000_0000) as u32
    };
    push_u32(out, image);
}

/// Append the wire form of a signed 64-bit integer.
pub fn push_i64(out: &mut Vec<u8>, v: i64)
    ensures
        final(out)@ == old(out)@ + i64_bytes(v),
{
    let image: u64 = if v >= 0 {
        v as u64
    } else {
        (v as i128 + 0x1_0000_0000_0000_0000) as u64
    };
    push_u64(out, image);
}

} // verus!
