//! The shared bit layer: the lane model of a 64-bit word, the lane-boundary
//! constants, and a few small lemmas every operation uses.

use vstd::prelude::*;

verus! {

/// Raw representation of a vector where all bytes are 1.
pub(crate) const ALL_ONES: u64 = 0x0101010101010101;

/// Raw representation of a vector where all bytes are 0x7f, and therefore
/// all but the most significant bit is set in any element.
///
/// Wrapping operations mask out the high bit with this word so that the
/// operation cannot carry out into the neighboring element.
pub(crate) const WITHOUT_HIGH_BITS: u64 = 0x7f7f7f7f7f7f7f7f;

/// Raw representation of a vector where all bytes are 0x80, and therefore
/// only the most significant bit is set across all elements.
///
/// This is the complement of [`WITHOUT_HIGH_BITS`], used to deal with the
/// masked-out remnant of a wrapping operation.
pub(crate) const ONLY_HIGH_BITS: u64 = 0x8080808080808080;

/// The byte stored in lane `i` of the word `n`.
///
/// Lane 0 is the least significant byte of the word, lane 7 the most
/// significant one.
pub open spec fn lane_byte(n: u64, i: int) -> u8 {
    ((n >> ((8 * i) as u64)) & 0xff) as u8
}

/// Bit `i` of the byte `b`, with bit 0 the least significant.
pub open spec fn bit_of(b: u8, i: int) -> bool {
    (b >> (i as u8)) & 1 == 1
}

/// The number of set bits in the byte `b`.
pub open spec fn popcount_byte(b: u8) -> int {
    ((b >> 0u8) & 1) + ((b >> 1u8) & 1) + ((b >> 2u8) & 1) + ((b >> 3u8) & 1) + ((b >> 4u8) & 1) + (
    (b >> 5u8) & 1) + ((b >> 6u8) & 1) + ((b >> 7u8) & 1)
}

/// A masked word never exceeds the mask itself.
pub(crate) proof fn lemma_and_bound(x: u64, m: u64)
    by (bit_vector)
    ensures
        (x & m) <= m,
{
}

/// Shifting right never increases a word.
pub(crate) proof fn lemma_shr_le(x: u64, k: u64)
    by (bit_vector)
    requires
        k < 64,
    ensures
        (x >> k) <= x,
{
}

/// A word with extra bits set never falls below the bits that were set.
pub(crate) proof fn lemma_or_bound(x: u64, m: u64)
    by (bit_vector)
    ensures
        (x | m) >= m,
{
}

/// A lane's byte, read back as an integer, is the shifted and masked word.
pub(crate) proof fn lemma_lane_byte_val(n: u64, i: int)
    requires
        0 <= i < 8,
    ensures
        lane_byte(n, i) as int == (n >> ((8 * i) as u64)) & 0xff,
        lane_byte(n, i) <= 255,
{
    lemma_lane_shift(i);
    lemma_and_bound(n >> ((8 * i) as u64), 0xff);
}

/// Bitwise OR acts on each lane's byte independently.
pub(crate) proof fn lemma_bitor_lane(x: u64, y: u64, s: u64, a: u8, b: u8)
    by (bit_vector)
    requires
        s <= 56,
        a as u64 == (x >> s) & 0xff,
        b as u64 == (y >> s) & 0xff,
    ensures
        ((x | y) >> s) & 0xff == (a | b) as u64,
{
}

/// Bitwise AND acts on each lane's byte independently.
pub(crate) proof fn lemma_bitand_lane(x: u64, y: u64, s: u64, a: u8, b: u8)
    by (bit_vector)
    requires
        s <= 56,
        a as u64 == (x >> s) & 0xff,
        b as u64 == (y >> s) & 0xff,
    ensures
        ((x & y) >> s) & 0xff == (a & b) as u64,
{
}

/// Bitwise XOR acts on each lane's byte independently.
pub(crate) proof fn lemma_bitxor_lane(x: u64, y: u64, s: u64, a: u8, b: u8)
    by (bit_vector)
    requires
        s <= 56,
        a as u64 == (x >> s) & 0xff,
        b as u64 == (y >> s) & 0xff,
    ensures
        ((x ^ y) >> s) & 0xff == (a ^ b) as u64,
{
}

/// Bitwise complement acts on each lane's byte independently: the new byte
/// is the old one with all eight bits flipped, that is, 255 minus it.
pub(crate) proof fn lemma_complement_lane(x: u64, s: u64, a: u8)
    by (bit_vector)
    requires
        s <= 56,
        a as u64 == (x >> s) & 0xff,
    ensures
        ((!x) >> s) & 0xff == (!a) as u64,
        ((!x) >> s) & 0xff == ((255 - a) as u64),
{
}

/// Packing eight bytes into a word, least significant byte first, places
/// each byte in its own lane.
pub(crate) proof fn lemma_pack_bytes(
    b0: u8,
    b1: u8,
    b2: u8,
    b3: u8,
    b4: u8,
    b5: u8,
    b6: u8,
    b7: u8,
    n: u64,
)
    by (bit_vector)
    requires
        n == (b0 as u64) | ((b1 as u64) << 8u64) | ((b2 as u64) << 16u64) | ((b3 as u64)
            << 24u64) | ((b4 as u64) << 32u64) | ((b5 as u64) << 40u64) | ((b6 as u64) << 48u64)
            | ((b7 as u64) << 56u64),
    ensures
        (n >> 0u64) & 0xff == b0,
        (n >> 8u64) & 0xff == b1,
        (n >> 16u64) & 0xff == b2,
        (n >> 24u64) & 0xff == b3,
        (n >> 32u64) & 0xff == b4,
        (n >> 40u64) & 0xff == b5,
        (n >> 48u64) & 0xff == b6,
        (n >> 56u64) & 0xff == b7,
{
}

/// Eight bytes that agree in every lane make the same word.
pub(crate) proof fn lemma_bytes_determine(x: u64, y: u64)
    by (bit_vector)
    requires
        (x >> 0u64) & 0xff == (y >> 0u64) & 0xff,
        (x >> 8u64) & 0xff == (y >> 8u64) & 0xff,
        (x >> 16u64) & 0xff == (y >> 16u64) & 0xff,
        (x >> 24u64) & 0xff == (y >> 24u64) & 0xff,
        (x >> 32u64) & 0xff == (y >> 32u64) & 0xff,
        (x >> 40u64) & 0xff == (y >> 40u64) & 0xff,
        (x >> 48u64) & 0xff == (y >> 48u64) & 0xff,
        (x >> 56u64) & 0xff == (y >> 56u64) & 0xff,
    ensures
        x == y,
{
}

/// Eight bits that agree in every position make the same byte.
pub(crate) proof fn lemma_bits_determine(a: u8, b: u8)
    by (bit_vector)
    requires
        ((a >> 0u8) & 1 == 1) == ((b >> 0u8) & 1 == 1),
        ((a >> 1u8) & 1 == 1) == ((b >> 1u8) & 1 == 1),
        ((a >> 2u8) & 1 == 1) == ((b >> 2u8) & 1 == 1),
        ((a >> 3u8) & 1 == 1) == ((b >> 3u8) & 1 == 1),
        ((a >> 4u8) & 1 == 1) == ((b >> 4u8) & 1 == 1),
        ((a >> 5u8) & 1 == 1) == ((b >> 5u8) & 1 == 1),
        ((a >> 6u8) & 1 == 1) == ((b >> 6u8) & 1 == 1),
        ((a >> 7u8) & 1 == 1) == ((b >> 7u8) & 1 == 1),
    ensures
        a == b,
{
}

/// A bit of a byte reads the same after the byte is widened to a word.
pub(crate) proof fn lemma_bit_widen(b: u8, k: u64)
    by (bit_vector)
    requires
        k < 8,
    ensures
        ((b as u64) >> k) & 1 == (((b >> (k as u8)) & 1) as u64),
{
}

/// The shift distance that reaches lane `i` is a byte-aligned amount
/// within the word.
pub(crate) proof fn lemma_lane_shift(i: int)
    requires
        0 <= i < 8,
    ensures
        ((8 * i) as u64) == 8 * i,
        ((8 * i) as u64) % 8 == 0,
        ((8 * i) as u64) <= 56,
        ((8 * i) as u64) / 8 == i,
{
    let s = (8 * i) as u64;
    if i == 0 {
        assert(s % 8 == 0 && s <= 56 && s / 8 == i);
    } else if i == 1 {
        assert(s % 8 == 0 && s <= 56 && s / 8 == i);
    } else if i == 2 {
        assert(s % 8 == 0 && s <= 56 && s / 8 == i);
    } else if i == 3 {
        assert(s % 8 == 0 && s <= 56 && s / 8 == i);
    } else if i == 4 {
        assert(s % 8 == 0 && s <= 56 && s / 8 == i);
    } else if i == 5 {
        assert(s % 8 == 0 && s <= 56 && s / 8 == i);
    } else if i == 6 {
        assert(s % 8 == 0 && s <= 56 && s / 8 == i);
    } else {
        assert(s % 8 == 0 && s <= 56 && s / 8 == i);
    }
}

} // verus!
