//! Eight boolean lanes in one 64-bit word, with logical operations and
//! conversions to and from a compact 8-bit bitmask.

use vstd::prelude::*;

use crate::lanes::bit_of;
use crate::lanes::lane_byte;
use crate::lanes::lemma_and_bound;
use crate::lanes::lemma_bytes_determine;
use crate::lanes::lemma_bit_widen;
use crate::lanes::lemma_bits_determine;
use crate::lanes::lemma_lane_byte_val;
use crate::lanes::lemma_lane_shift;
use crate::lanes::lemma_pack_bytes;
use crate::lanes::ALL_ONES;
use crate::vector::u8x8;

verus! {

broadcast use vstd::array::group_array_axioms;

/// A vector of eight `bool` values, which can have SIMD-like operations
/// applied to them without any explicit SIMD instructions.
///
/// This type is really just a [`u64`], but its methods interpret it as eight
/// [`bool`] values where the same operation is applied to all eight values
/// at once. Each lane's byte is `0x01` for `true` and `0x00` for `false`;
/// every public operation keeps that shape, stated by [`Self::wf`].
#[allow(non_camel_case_types)]
#[derive(Clone, Copy, PartialEq, Eq, Structural, Debug)]
pub struct mask8x8 {
    pub n: u64,
}

impl View for mask8x8 {
    type V = Seq<bool>;

    open spec fn view(&self) -> Seq<bool> {
        Seq::new(8, |i: int| lane_byte(self.n, i) == 1)
    }
}

/// How many of the eight boolean lanes are true.
pub open spec fn count_trues(s: Seq<bool>) -> int
    recommends
        s.len() == 8,
{
    (if s[0] {
        1int
    } else {
        0int
    }) + (if s[1] {
        1int
    } else {
        0int
    }) + (if s[2] {
        1int
    } else {
        0int
    }) + (if s[3] {
        1int
    } else {
        0int
    }) + (if s[4] {
        1int
    } else {
        0int
    }) + (if s[5] {
        1int
    } else {
        0int
    }) + (if s[6] {
        1int
    } else {
        0int
    }) + (if s[7] {
        1int
    } else {
        0int
    })
}

/// The bit-spread trick: the two staggered multiplications replicate each
/// of the eight mask bits into its own lane, and the final mask keeps one
/// defined bit per lane.
proof fn lemma_from_bitmask_lane(raw: u64, n: u64, s: u64)
    by (bit_vector)
    requires
        raw <= 255,
        n == ((((raw & 0x55) * 0x02040810204081) as u64) | (((raw & 0xaa) * 0x02040810204081)
            as u64)) & 0x0101010101010101,
        s % 8 == 0,
        s <= 56,
    ensures
        (n >> s) & 0xff == (raw >> (s / 8)) & 1,
{
}

/// The bit-gather trick: multiplying a word of 0/1 bytes by the magic
/// constant accumulates every lane's bit into the word's top byte, one
/// output bit per lane.
proof fn lemma_to_bitmask_lane(m: u64, p: u64, k: u64)
    by (bit_vector)
    requires
        (m >> 0u64) & 0xff <= 1,
        (m >> 8u64) & 0xff <= 1,
        (m >> 16u64) & 0xff <= 1,
        (m >> 24u64) & 0xff <= 1,
        (m >> 32u64) & 0xff <= 1,
        (m >> 40u64) & 0xff <= 1,
        (m >> 48u64) & 0xff <= 1,
        (m >> 56u64) & 0xff <= 1,
        p == ((m * 0x0102040810204080) % 0x10000000000000000) as u64,
        k < 8,
    ensures
        p >> 56u64 <= 255,
        ((p >> 56u64) >> k) & 1 == (m >> ((8 * k) as u64)) & 0xff,
{
}

/// Reversing the lanes of a word moves the byte of lane `i` to lane
/// `7 - i`.
proof fn lemma_swap_lane(n: u64, r: u64, s: u64)
    by (bit_vector)
    requires
        r == ((n >> 56u64) & 0xff) | (((n >> 48u64) & 0xff) << 8u64) | (((n >> 40u64) & 0xff)
            << 16u64) | (((n >> 32u64) & 0xff) << 24u64) | (((n >> 24u64) & 0xff) << 32u64) | (((n
            >> 16u64) & 0xff) << 40u64) | (((n >> 8u64) & 0xff) << 48u64) | (((n >> 0u64) & 0xff)
            << 56u64),
        s % 8 == 0,
        s <= 56,
    ensures
        (r >> s) & 0xff == (n >> ((56 - s) as u64)) & 0xff,
{
}

/// Logical NOT of a 0/1 byte, done by toggling the defined bit of every
/// lane at once.
proof fn lemma_mask_not_lane(x: u64, n: u64, s: u64)
    by (bit_vector)
    requires
        (x >> s) & 0xff <= 1,
        n == x ^ 0x0101010101010101,
        s % 8 == 0,
        s <= 56,
    ensures
        (x >> s) & 0xff == 0 ==> (n >> s) & 0xff == 1,
        (x >> s) & 0xff == 1 ==> (n >> s) & 0xff == 0,
{
}

/// Logical OR of 0/1 bytes is their bitwise OR, lane by lane.
proof fn lemma_mask_or_lane(x: u64, y: u64, s: u64)
    by (bit_vector)
    requires
        (x >> s) & 0xff <= 1,
        (y >> s) & 0xff <= 1,
        s <= 56,
    ensures
        ((x | y) >> s) & 0xff <= 1,
        (((x | y) >> s) & 0xff == 1) == ((x >> s) & 0xff == 1 || (y >> s) & 0xff == 1),
{
}

/// Logical AND of 0/1 bytes is their bitwise AND, lane by lane.
proof fn lemma_mask_and_lane(x: u64, y: u64, s: u64)
    by (bit_vector)
    requires
        (x >> s) & 0xff <= 1,
        (y >> s) & 0xff <= 1,
        s <= 56,
    ensures
        ((x & y) >> s) & 0xff <= 1,
        (((x & y) >> s) & 0xff == 1) == ((x >> s) & 0xff == 1 && (y >> s) & 0xff == 1),
{
}

/// A word of 0/1 bytes never exceeds the all-ones-per-lane pattern.
proof fn lemma_mask_word_bound(m: u64)
    by (bit_vector)
    requires
        (m >> 0u64) & 0xff <= 1,
        (m >> 8u64) & 0xff <= 1,
        (m >> 16u64) & 0xff <= 1,
        (m >> 24u64) & 0xff <= 1,
        (m >> 32u64) & 0xff <= 1,
        (m >> 40u64) & 0xff <= 1,
        (m >> 48u64) & 0xff <= 1,
        (m >> 56u64) & 0xff <= 1,
    ensures
        m <= 0x0101010101010101,
{
}

/// The broadcast conditional move: every lane whose mask byte is 1 takes
/// the first operand's byte, every other lane the second operand's byte.
proof fn lemma_select_lane(m: u64, mb: u64, t: u64, f: u64, n: u64, s: u64)
    by (bit_vector)
    requires
        (m >> 0u64) & 0xff <= 1,
        (m >> 8u64) & 0xff <= 1,
        (m >> 16u64) & 0xff <= 1,
        (m >> 24u64) & 0xff <= 1,
        (m >> 32u64) & 0xff <= 1,
        (m >> 40u64) & 0xff <= 1,
        (m >> 48u64) & 0xff <= 1,
        (m >> 56u64) & 0xff <= 1,
        mb == (m * 255) as u64,
        n == (t & mb) | (f & !mb),
        s % 8 == 0,
        s <= 56,
    ensures
        (m >> s) & 0xff == 1 ==> (n >> s) & 0xff == (t >> s) & 0xff,
        (m >> s) & 0xff == 0 ==> (n >> s) & 0xff == (f >> s) & 0xff,
{
}

/// Gives the eight lane-byte bounds of a well-formed mask in the shifted
/// form the word-level lemmas ask for, with the word bound they imply.
proof fn lemma_wf_bytes(m: mask8x8)
    requires
        m.wf(),
    ensures
        (m.n >> 0u64) & 0xff <= 1,
        (m.n >> 8u64) & 0xff <= 1,
        (m.n >> 16u64) & 0xff <= 1,
        (m.n >> 24u64) & 0xff <= 1,
        (m.n >> 32u64) & 0xff <= 1,
        (m.n >> 40u64) & 0xff <= 1,
        (m.n >> 48u64) & 0xff <= 1,
        (m.n >> 56u64) & 0xff <= 1,
        m.n <= 0x0101010101010101,
{
    lemma_lane_byte_val(m.n, 0);
    lemma_lane_byte_val(m.n, 1);
    lemma_lane_byte_val(m.n, 2);
    lemma_lane_byte_val(m.n, 3);
    lemma_lane_byte_val(m.n, 4);
    lemma_lane_byte_val(m.n, 5);
    lemma_lane_byte_val(m.n, 6);
    lemma_lane_byte_val(m.n, 7);
    lemma_mask_word_bound(m.n);
}

/// Reverses the order of the eight lanes of a word.
fn swap_lanes(n: u64) -> (r: u64)
    ensures
        forall|i: int| 0 <= i < 8 ==> lane_byte(r, i) == lane_byte(n, 7 - i),
{
    let r = ((n >> 56u64) & 0xff) | (((n >> 48u64) & 0xff) << 8u64) | (((n >> 40u64) & 0xff)
        << 16u64) | (((n >> 32u64) & 0xff) << 24u64) | (((n >> 24u64) & 0xff) << 32u64) | (((n
        >> 16u64) & 0xff) << 40u64) | (((n >> 8u64) & 0xff) << 48u64) | (((n >> 0u64) & 0xff)
        << 56u64);
    proof {
        assert forall|i: int| 0 <= i < 8 implies lane_byte(r, i) == lane_byte(n, 7 - i) by {
            lemma_lane_shift(i);
            lemma_lane_shift(7 - i);
            lemma_swap_lane(n, r, (8 * i) as u64);
            lemma_lane_byte_val(r, i);
            lemma_lane_byte_val(n, 7 - i);
        }
    }
    r
}

impl mask8x8 {
    /// A mask is well formed when every lane's byte is `0x00` or `0x01`.
    pub open spec fn wf(self) -> bool {
        forall|i: int| 0 <= i < 8 ==> lane_byte(self.n, i) == 0 || lane_byte(self.n, i) == 1
    }

    pub(crate) fn new(n: u64) -> (r: Self)
        ensures
            r.n == n,
    {
        Self { n }
    }

    /// Converts the given array into a [`mask8x8`].
    pub fn from_array(a: [bool; 8]) -> (r: Self)
        ensures
            r.wf(),
            r@ == a@,
    {
        let b0: u8 = if a[0] { 1 } else { 0 };
        let b1: u8 = if a[1] { 1 } else { 0 };
        let b2: u8 = if a[2] { 1 } else { 0 };
        let b3: u8 = if a[3] { 1 } else { 0 };
        let b4: u8 = if a[4] { 1 } else { 0 };
        let b5: u8 = if a[5] { 1 } else { 0 };
        let b6: u8 = if a[6] { 1 } else { 0 };
        let b7: u8 = if a[7] { 1 } else { 0 };
        let n = (b0 as u64) | ((b1 as u64) << 8u64) | ((b2 as u64) << 16u64) | ((b3 as u64)
            << 24u64) | ((b4 as u64) << 32u64) | ((b5 as u64) << 40u64) | ((b6 as u64) << 48u64)
            | ((b7 as u64) << 56u64);
        let r = Self { n };
        proof {
            lemma_pack_bytes(b0, b1, b2, b3, b4, b5, b6, b7, n);
            assert forall|i: int|
                0 <= i < 8 implies (lane_byte(n, i) == 0 || lane_byte(n, i) == 1) && r@[i]
                == a@[i] by {
                lemma_lane_shift(i);
            }
            assert(r@ =~= a@);
        }
        r
    }

    fn from_bitmask_raw(mask: u8) -> (n: u64)
        ensures
            forall|i: int| 0 <= i < 8 ==> lane_byte(n, i) == 0 || lane_byte(n, i) == 1,
            forall|i: int| 0 <= i < 8 ==> ((lane_byte(n, i) == 1) == bit_of(mask, i)),
    {
        let raw = mask as u64;
        proof {
            lemma_and_bound(raw, 0x55);
            lemma_and_bound(raw, 0xaa);
        }
        let n = (((raw & 0x55) * 0x02040810204081) | ((raw & 0xaa) * 0x02040810204081))
            & ALL_ONES;
        proof {
            assert forall|i: int|
                0 <= i < 8 implies (lane_byte(n, i) == 0 || lane_byte(n, i) == 1) && ((lane_byte(
                n,
                i,
            ) == 1) == bit_of(mask, i)) by {
                lemma_lane_shift(i);
                lemma_from_bitmask_lane(raw, n, (8 * i) as u64);
                lemma_lane_byte_val(n, i);
                lemma_and_bound(raw >> (((8 * i) as u64) / 8), 1);
                lemma_bit_widen(mask, ((8 * i) as u64) / 8);
            }
        }
        n
    }

    /// Converts the given bitmask into a [`mask8x8`] by treating a set bit
    /// as `true` and an unset bit as `false`. The least significant bit
    /// appears in the first element.
    pub fn from_bitmask_le(mask: u8) -> (r: Self)
        ensures
            r.wf(),
            forall|i: int| 0 <= i < 8 ==> r@[i] == bit_of(mask, i),
    {
        Self { n: Self::from_bitmask_raw(mask) }
    }

    /// Converts the given bitmask into a [`mask8x8`] by treating a set bit
    /// as `true` and an unset bit as `false`. The least significant bit
    /// appears in the last element.
    pub fn from_bitmask_be(mask: u8) -> (r: Self)
        ensures
            r.wf(),
            forall|i: int| 0 <= i < 8 ==> r@[i] == bit_of(mask, 7 - i),
    {
        Self { n: swap_lanes(Self::from_bitmask_raw(mask)) }
    }

    /// Converts the vector into an array of eight `bool` values.
    pub fn to_array(self) -> (r: [bool; 8])
        ensures
            r@ == self@,
    {
        let n = self.n;
        let r = [
            (n >> 0u64) & 0xff == 1,
            (n >> 8u64) & 0xff == 1,
            (n >> 16u64) & 0xff == 1,
            (n >> 24u64) & 0xff == 1,
            (n >> 32u64) & 0xff == 1,
            (n >> 40u64) & 0xff == 1,
            (n >> 48u64) & 0xff == 1,
            (n >> 56u64) & 0xff == 1,
        ];
        proof {
            assert forall|i: int| 0 <= i < 8 implies r@[i] == self@[i] by {
                lemma_lane_shift(i);
                lemma_lane_byte_val(n, i);
            }
            assert(r@ =~= self@);
        }
        r
    }

    fn to_bitmask_raw(raw: u64) -> (r: u8)
        requires
            forall|i: int| 0 <= i < 8 ==> lane_byte(raw, i) == 0 || lane_byte(raw, i) == 1,
        ensures
            forall|i: int| 0 <= i < 8 ==> bit_of(r, i) == (lane_byte(raw, i) == 1),
    {
        let p = raw.wrapping_mul(0x0102040810204080u64);
        proof {
            lemma_lane_byte_val(raw, 0);
            lemma_lane_byte_val(raw, 1);
            lemma_lane_byte_val(raw, 2);
            lemma_lane_byte_val(raw, 3);
            lemma_lane_byte_val(raw, 4);
            lemma_lane_byte_val(raw, 5);
            lemma_lane_byte_val(raw, 6);
            lemma_lane_byte_val(raw, 7);
            lemma_to_bitmask_lane(raw, p, 0);
        }
        let r = (p >> 56u64) as u8;
        proof {
            assert forall|i: int| 0 <= i < 8 implies bit_of(r, i) == (lane_byte(raw, i) == 1) by {
                lemma_lane_shift(i);
                lemma_to_bitmask_lane(raw, p, i as u64);
                lemma_bit_widen(r, i as u64);
                lemma_lane_byte_val(raw, i);
            }
        }
        r
    }

    /// Converts the vector into a bitmask where the first element is in
    /// the least significant bit.
    pub fn to_bitmask_le(self) -> (r: u8)
        requires
            self.wf(),
        ensures
            forall|i: int| 0 <= i < 8 ==> bit_of(r, i) == self@[i],
    {
        Self::to_bitmask_raw(self.n)
    }

    /// Converts the vector into a bitmask where the first element is in
    /// the most significant bit.
    pub fn to_bitmask_be(self) -> (r: u8)
        requires
            self.wf(),
        ensures
            forall|i: int| 0 <= i < 8 ==> bit_of(r, i) == self@[7 - i],
    {
        Self::to_bitmask_raw(swap_lanes(self.n))
    }

    /// Returns a [`u8x8`] representation of the mask where true elements
    /// are represented as `0x01` and false elements are represented as
    /// `0x00`.
    pub fn to_u8x8(self) -> (r: u8x8)
        requires
            self.wf(),
        ensures
            forall|i: int|
                0 <= i < 8 ==> r@[i] == (if self@[i] {
                    1u8
                } else {
                    0u8
                }),
    {
        u8x8::new(self.n)
    }

    /// Returns a [`u8x8`] representation of the mask where true elements
    /// are represented as `v` and false elements are represented as `0x00`.
    pub fn to_u8x8_with(self, v: u8) -> (r: u8x8)
        requires
            self.wf(),
        ensures
            forall|i: int|
                0 <= i < 8 ==> r@[i] == (if self@[i] {
                    v
                } else {
                    0u8
                }),
    {
        self.select(v, 0)
    }

    /// Computes the complement of each element in the vector.
    pub fn not(self) -> (r: Self)
        requires
            self.wf(),
        ensures
            r.wf(),
            forall|i: int| 0 <= i < 8 ==> r@[i] == !self@[i],
    {
        let x = self.n;
        let r = Self { n: x ^ ALL_ONES };
        proof {
            assert forall|i: int|
                0 <= i < 8 implies (lane_byte(r.n, i) == 0 || lane_byte(r.n, i) == 1) && r@[i]
                == !self@[i] by {
                lemma_lane_shift(i);
                lemma_lane_byte_val(x, i);
                lemma_lane_byte_val(r.n, i);
                lemma_mask_not_lane(x, r.n, (8 * i) as u64);
            }
        }
        r
    }

    /// Computes a logical OR result for each element across both vectors.
    pub fn or(self, other: Self) -> (r: Self)
        requires
            self.wf(),
            other.wf(),
        ensures
            r.wf(),
            forall|i: int| 0 <= i < 8 ==> r@[i] == (self@[i] || other@[i]),
    {
        let x = self.n;
        let y = other.n;
        let r = Self { n: x | y };
        proof {
            assert forall|i: int|
                0 <= i < 8 implies (lane_byte(r.n, i) == 0 || lane_byte(r.n, i) == 1) && r@[i]
                == (self@[i] || other@[i]) by {
                lemma_lane_shift(i);
                lemma_lane_byte_val(x, i);
                lemma_lane_byte_val(y, i);
                lemma_lane_byte_val(r.n, i);
                lemma_mask_or_lane(x, y, (8 * i) as u64);
            }
        }
        r
    }

    /// Computes a logical AND result for each element across both vectors.
    pub fn and(self, other: Self) -> (r: Self)
        requires
            self.wf(),
            other.wf(),
        ensures
            r.wf(),
            forall|i: int| 0 <= i < 8 ==> r@[i] == (self@[i] && other@[i]),
    {
        let x = self.n;
        let y = other.n;
        let r = Self { n: x & y };
        proof {
            assert forall|i: int|
                0 <= i < 8 implies (lane_byte(r.n, i) == 0 || lane_byte(r.n, i) == 1) && r@[i]
                == (self@[i] && other@[i]) by {
                lemma_lane_shift(i);
                lemma_lane_byte_val(x, i);
                lemma_lane_byte_val(y, i);
                lemma_lane_byte_val(r.n, i);
                lemma_mask_and_lane(x, y, (8 * i) as u64);
            }
        }
        r
    }

    /// Builds a [`u8x8`] by selecting one of the two given values for each
    /// element corresponding to the elements in the mask.
    pub fn select(self, true_value: u8, false_value: u8) -> (r: u8x8)
        requires
            self.wf(),
        ensures
            forall|i: int|
                0 <= i < 8 ==> r@[i] == (if self@[i] {
                    true_value
                } else {
                    false_value
                }),
    {
        let t = u8x8::splat(true_value);
        let f = u8x8::splat(false_value);
        proof {
            lemma_wf_bytes(self);
        }
        let mb = self.n * 0xff;
        let r = u8x8::new((t.n & mb) | (f.n & !mb));
        proof {
            assert forall|i: int|
                0 <= i < 8 implies r@[i] == (if self@[i] {
                true_value
            } else {
                false_value
            }) by {
                lemma_lane_shift(i);
                lemma_lane_byte_val(self.n, i);
                lemma_lane_byte_val(t.n, i);
                lemma_lane_byte_val(f.n, i);
                lemma_lane_byte_val(r.n, i);
                assert(t@[i] == true_value);
                assert(f@[i] == false_value);
                lemma_select_lane(self.n, mb, t.n, f.n, r.n, (8 * i) as u64);
            }
        }
        r
    }

    /// Returns the number of elements in the mask that are set to `true`.
    pub fn count_true(self) -> (r: u32)
        requires
            self.wf(),
        ensures
            r as int == count_trues(self@),
            r <= 8,
    {
        self.to_u8x8().collect_sum()
    }

    /// Returns the number of elements in the mask that are set to `false`.
    pub fn count_false(self) -> (r: u32)
        requires
            self.wf(),
        ensures
            r as int == 8 - count_trues(self@),
    {
        8 - self.count_true()
    }
}

/// A well-formed mask is determined by its eight boolean lanes: two
/// well-formed masks whose lanes agree are the same value.
pub proof fn lemma_mask_view_injective(x: mask8x8, y: mask8x8)
    requires
        x.wf(),
        y.wf(),
        x@ == y@,
    ensures
        x == y,
{
    assert forall|i: int| 0 <= i < 8 implies lane_byte(x.n, i) == lane_byte(y.n, i) by {
        assert(x@[i] == y@[i]);
        assert(lane_byte(x.n, i) == 0 || lane_byte(x.n, i) == 1);
        assert(lane_byte(y.n, i) == 0 || lane_byte(y.n, i) == 1);
        assert(x@[i] == (lane_byte(x.n, i) == 1));
        assert(y@[i] == (lane_byte(y.n, i) == 1));
    }
    lemma_lane_byte_val(x.n, 0);
    lemma_lane_byte_val(x.n, 1);
    lemma_lane_byte_val(x.n, 2);
    lemma_lane_byte_val(x.n, 3);
    lemma_lane_byte_val(x.n, 4);
    lemma_lane_byte_val(x.n, 5);
    lemma_lane_byte_val(x.n, 6);
    lemma_lane_byte_val(x.n, 7);
    lemma_lane_byte_val(y.n, 0);
    lemma_lane_byte_val(y.n, 1);
    lemma_lane_byte_val(y.n, 2);
    lemma_lane_byte_val(y.n, 3);
    lemma_lane_byte_val(y.n, 4);
    lemma_lane_byte_val(y.n, 5);
    lemma_lane_byte_val(y.n, 6);
    lemma_lane_byte_val(y.n, 7);
    lemma_bytes_determine(x.n, y.n);
}

/// Round trip through the boolean array, mask first: reading a mask's
/// array with `to_array` (so `a@ == m@`) and rebuilding a mask from it
/// with `from_array` (so `m2@ == a@` and `m2` is well formed) returns the
/// original mask.
pub proof fn lemma_mask_array_round_trip(m: mask8x8, a: [bool; 8], m2: mask8x8)
    requires
        m.wf(),
        a@ == m@,
        m2.wf(),
        m2@ == a@,
    ensures
        m2 == m,
{
    lemma_mask_view_injective(m2, m);
}

/// Round trip through the mask, array first: building a mask from eight
/// booleans with `from_array` (so `m@ == a@`) and reading it back with
/// `to_array` (so `b@ == m@`) returns the original eight booleans.
pub proof fn lemma_bool_array_round_trip(a: [bool; 8], m: mask8x8, b: [bool; 8])
    requires
        m@ == a@,
        b@ == m@,
    ensures
        b == a,
{
    assert(b =~= a);
}

/// Round trip through the lanes, least-significant-bit-first: spreading a
/// bitmask with `from_bitmask_le` and gathering it with `to_bitmask_le`
/// returns the original bitmask.
pub proof fn lemma_bitmask_le_round_trip(k: u8, m: mask8x8, r: u8)
    requires
        forall|i: int| 0 <= i < 8 ==> m@[i] == bit_of(k, i),
        forall|i: int| 0 <= i < 8 ==> bit_of(r, i) == m@[i],
    ensures
        r == k,
{
    assert(bit_of(r, 0) == bit_of(k, 0));
    assert(bit_of(r, 1) == bit_of(k, 1));
    assert(bit_of(r, 2) == bit_of(k, 2));
    assert(bit_of(r, 3) == bit_of(k, 3));
    assert(bit_of(r, 4) == bit_of(k, 4));
    assert(bit_of(r, 5) == bit_of(k, 5));
    assert(bit_of(r, 6) == bit_of(k, 6));
    assert(bit_of(r, 7) == bit_of(k, 7));
    lemma_bits_determine(k, r);
}

/// Round trip through the lanes, most-significant-bit-first: spreading a
/// bitmask with `from_bitmask_be` and gathering it with `to_bitmask_be`
/// returns the original bitmask.
pub proof fn lemma_bitmask_be_round_trip(k: u8, m: mask8x8, r: u8)
    requires
        forall|i: int| 0 <= i < 8 ==> m@[i] == bit_of(k, 7 - i),
        forall|i: int| 0 <= i < 8 ==> bit_of(r, i) == m@[7 - i],
    ensures
        r == k,
{
    assert(bit_of(r, 0) == bit_of(k, 0));
    assert(bit_of(r, 1) == bit_of(k, 1));
    assert(bit_of(r, 2) == bit_of(k, 2));
    assert(bit_of(r, 3) == bit_of(k, 3));
    assert(bit_of(r, 4) == bit_of(k, 4));
    assert(bit_of(r, 5) == bit_of(k, 5));
    assert(bit_of(r, 6) == bit_of(k, 6));
    assert(bit_of(r, 7) == bit_of(k, 7));
    lemma_bits_determine(k, r);
}

/// The true lanes and the false lanes of a mask always partition its
/// eight lanes: `count_true` and `count_false` add up to eight.
pub proof fn lemma_count_partition(m: mask8x8, t: u32, f: u32)
    requires
        t as int == count_trues(m@),
        f as int == 8 - count_trues(m@),
    ensures
        t + f == 8,
{
}

} // verus!
