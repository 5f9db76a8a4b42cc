//! Eight unsigned 8-bit lanes in one 64-bit word, with lane-parallel
//! arithmetic and comparisons.

use vstd::prelude::*;

use crate::lanes::lane_byte;
use crate::lanes::lemma_and_bound;
use crate::lanes::lemma_bitand_lane;
use crate::lanes::lemma_bitor_lane;
use crate::lanes::lemma_bitxor_lane;
use crate::lanes::lemma_complement_lane;
use crate::lanes::lemma_lane_byte_val;
use crate::lanes::lemma_lane_shift;
use crate::lanes::lemma_or_bound;
use crate::lanes::lemma_pack_bytes;
use crate::lanes::lemma_shr_le;
use crate::lanes::popcount_byte;
use crate::lanes::ALL_ONES;
use crate::lanes::ONLY_HIGH_BITS;
use crate::lanes::WITHOUT_HIGH_BITS;
use crate::mask::mask8x8;

verus! {

broadcast use vstd::array::group_array_axioms;

/// A vector of eight `u8` values, which can have SIMD-like operations applied
/// to them without any explicit SIMD instructions.
///
/// This type is really just a [`u64`], but its methods interpret it as eight
/// [`u8`] values where the same operation is applied to all eight values at
/// once. Lane 0 lives in the least significant byte of the word.
#[allow(non_camel_case_types)]
#[derive(Clone, Copy, PartialEq, Eq, Structural, Debug)]
pub struct u8x8 {
    pub n: u64,
}

impl View for u8x8 {
    type V = Seq<u8>;

    open spec fn view(&self) -> Seq<u8> {
        Seq::new(8, |i: int| lane_byte(self.n, i))
    }
}

/// Broadcasting a byte with the all-ones multiplier fills every lane with
/// that byte.
proof fn lemma_splat_lane(v: u8, n: u64, s: u64)
    by (bit_vector)
    requires
        n == (v as u64) * 0x0101010101010101,
        s % 8 == 0,
        s <= 56,
    ensures
        (n >> s) & 0xff == v,
{
}

/// The wrapping-add bit trick is, in every lane, addition modulo 256: the
/// masked low-bit sum cannot carry across a lane boundary, and the XOR with
/// the operands' high bits restores the true top bit of each lane.
proof fn lemma_wrapping_add_lane(x: u64, y: u64, low: u64, n: u64, s: u64)
    by (bit_vector)
    requires
        low == (x & 0x7f7f7f7f7f7f7f7f) + (y & 0x7f7f7f7f7f7f7f7f),
        n == low ^ ((x ^ y) & 0x8080808080808080),
        s % 8 == 0,
        s <= 56,
    ensures
        (n >> s) & 0xff == ((((x >> s) & 0xff) + ((y >> s) & 0xff)) % 256) as u64,
{
}

/// The wrapping-sub bit trick is, in every lane, subtraction modulo 256:
/// setting each lane's high bit in the minuend keeps the borrow from
/// crossing a lane boundary, and the final XOR restores the true top bit.
proof fn lemma_wrapping_sub_lane(x: u64, y: u64, dif: u64, n: u64, s: u64)
    by (bit_vector)
    requires
        dif == (x | 0x8080808080808080) - (y & 0x7f7f7f7f7f7f7f7f),
        n == dif ^ ((x ^ !y) & 0x8080808080808080),
        s % 8 == 0,
        s <= 56,
    ensures
        (n >> s) & 0xff == ((((x >> s) & 0xff) + 256 - ((y >> s) & 0xff)) % 256) as u64,
{
}

/// A word whose bits all sit on lane-high positions keeps nothing below
/// them, so shifting it down by seven lands every bit on a lane-low
/// position.
proof fn lemma_high_bits_shift(n: u64)
    by (bit_vector)
    requires
        n & 0x7f7f7f7f7f7f7f7f == 0,
    ensures
        (n >> 7u64) <= 0x0101010101010101,
{
}

/// Masking a word to the lane-high positions leaves nothing on the other
/// positions.
proof fn lemma_high_mask_disjoint(c: u64)
    by (bit_vector)
    ensures
        (c & 0x8080808080808080) & 0x7f7f7f7f7f7f7f7f == 0,
{
}

/// The saturating-add fixup: a lane whose true sum exceeds 255 raises its
/// carry indicator's high bit, and the broadcast of that bit forces the
/// lane to 255; every other lane keeps its wrapped (exact) sum.
proof fn lemma_saturating_add_lane(
    x: u64,
    y: u64,
    low: u64,
    sum: u64,
    carry: u64,
    m: u64,
    n: u64,
    s: u64,
)
    by (bit_vector)
    requires
        low == (x & 0x7f7f7f7f7f7f7f7f) + (y & 0x7f7f7f7f7f7f7f7f),
        sum == low ^ ((x ^ y) & 0x8080808080808080),
        carry == ((x & y) | ((x | y) & !sum)) & 0x8080808080808080,
        m == ((carry >> 7u64) * 255) as u64,
        n == sum | m,
        s % 8 == 0,
        s <= 56,
    ensures
        ((x >> s) & 0xff) + ((y >> s) & 0xff) > 255 ==> (n >> s) & 0xff == 255,
        ((x >> s) & 0xff) + ((y >> s) & 0xff) <= 255 ==> (n >> s) & 0xff == ((((x >> s) & 0xff) + (
        (y >> s) & 0xff)) as u64),
{
}

/// The saturating-sub fixup: a lane whose true difference falls below zero
/// raises its borrow indicator's high bit, and the broadcast of that bit
/// clears the lane to zero; every other lane keeps its exact difference.
proof fn lemma_saturating_sub_lane(
    x: u64,
    y: u64,
    dif: u64,
    wrapped: u64,
    borrow: u64,
    m: u64,
    n: u64,
    s: u64,
)
    by (bit_vector)
    requires
        dif == (x | 0x8080808080808080) - (y & 0x7f7f7f7f7f7f7f7f),
        wrapped == dif ^ ((x ^ !y) & 0x8080808080808080),
        borrow == ((!x & y) | ((!x | y) & wrapped)) & 0x8080808080808080,
        m == ((borrow >> 7u64) * 255) as u64,
        n == wrapped & !m,
        s % 8 == 0,
        s <= 56,
    ensures
        ((x >> s) & 0xff) < ((y >> s) & 0xff) ==> (n >> s) & 0xff == 0,
        ((x >> s) & 0xff) >= ((y >> s) & 0xff) ==> (n >> s) & 0xff == ((((x >> s) & 0xff) - ((y
            >> s) & 0xff)) as u64),
{
}

/// The zero-byte detection trick: adding the low-bits mask to a lane's
/// masked byte overflows into the lane's high bit unless the byte is zero,
/// so after folding the byte's own high bit back in and complementing, the
/// high bit survives exactly in the lanes whose operands were equal.
proof fn lemma_equals_lane(x: u64, y: u64, lo: u64, n: u64, s: u64)
    by (bit_vector)
    requires
        lo == ((((x ^ y) & 0x7f7f7f7f7f7f7f7f) + 0x7f7f7f7f7f7f7f7f) as u64) | (x ^ y),
        n == (!lo & 0x8080808080808080) >> 7u64,
        s % 8 == 0,
        s <= 56,
    ensures
        (x >> s) & 0xff == (y >> s) & 0xff ==> (n >> s) & 0xff == 1,
        (x >> s) & 0xff != (y >> s) & 0xff ==> (n >> s) & 0xff == 0,
{
}

/// The lane-wise comparison trick: the selector reconstructs, in each
/// lane's high bit, whether the minuend's byte is at least the
/// subtrahend's, and the final XOR inverts that into a strict less-than
/// indicator.
proof fn lemma_less_than_lane(x: u64, y: u64, dif: u64, sel: u64, n: u64, s: u64)
    by (bit_vector)
    requires
        dif == (x | 0x8080808080808080) - (y & 0x7f7f7f7f7f7f7f7f),
        sel == ((x & (x ^ y)) | (dif & !(x ^ y))) & 0x8080808080808080,
        n == (sel ^ 0x8080808080808080) >> 7u64,
        s % 8 == 0,
        s <= 56,
    ensures
        (x >> s) & 0xff < (y >> s) & 0xff ==> (n >> s) & 0xff == 1,
        (x >> s) & 0xff >= (y >> s) & 0xff ==> (n >> s) & 0xff == 0,
{
}

/// The borrow indicator of a whole-word subtraction, broadcast to full
/// lanes, selects the pointwise larger and smaller operand: it can differ
/// from the per-lane borrow only where the two bytes are equal, and there
/// either selection returns the same value.
proof fn lemma_min_max_lane(
    x: u64,
    y: u64,
    d: u64,
    borrow: u64,
    m: u64,
    nmax: u64,
    nmin: u64,
    s: u64,
)
    by (bit_vector)
    requires
        x >= y ==> d == ((x - y) as u64),
        x < y ==> d == ((x - y + 0x10000000000000000) as u64),
        borrow == ((!x & y) | ((!x | y) & d)) & 0x8080808080808080,
        m == ((borrow >> 7u64) * 255) as u64,
        nmax == (x & !m) | (y & m),
        nmin == (x & m) | (y & !m),
        s % 8 == 0,
        s <= 56,
    ensures
        (x >> s) & 0xff >= (y >> s) & 0xff ==> (nmax >> s) & 0xff == (x >> s) & 0xff,
        (x >> s) & 0xff < (y >> s) & 0xff ==> (nmax >> s) & 0xff == (y >> s) & 0xff,
        (x >> s) & 0xff >= (y >> s) & 0xff ==> (nmin >> s) & 0xff == (y >> s) & 0xff,
        (x >> s) & 0xff < (y >> s) & 0xff ==> (nmin >> s) & 0xff == (x >> s) & 0xff,
{
}

/// Subtracting, lane by lane, the pointwise smaller operand from the
/// pointwise larger one yields the absolute difference of every lane.
proof fn lemma_abs_difference_lane(
    x: u64,
    y: u64,
    d: u64,
    borrow: u64,
    m: u64,
    big: u64,
    small: u64,
    dif: u64,
    n: u64,
    s: u64,
)
    by (bit_vector)
    requires
        x >= y ==> d == ((x - y) as u64),
        x < y ==> d == ((x - y + 0x10000000000000000) as u64),
        borrow == ((!x & y) | ((!x | y) & d)) & 0x8080808080808080,
        m == ((borrow >> 7u64) * 255) as u64,
        big == (x & !m) | (y & m),
        small == (x & m) | (y & !m),
        dif == (big | 0x8080808080808080) - (small & 0x7f7f7f7f7f7f7f7f),
        n == dif ^ ((big ^ !small) & 0x8080808080808080),
        s % 8 == 0,
        s <= 56,
    ensures
        (x >> s) & 0xff >= (y >> s) & 0xff ==> (n >> s) & 0xff == ((((x >> s) & 0xff) - ((y >> s)
            & 0xff)) as u64),
        (x >> s) & 0xff < (y >> s) & 0xff ==> (n >> s) & 0xff == ((((y >> s) & 0xff) - ((x >> s)
            & 0xff)) as u64),
{
}

/// The carry-save mean trick: the shared bits plus half of the
/// non-shared bits, with the shift kept inside each lane, compute the
/// rounded-down mean of every lane without intermediate overflow.
proof fn lemma_mean_lane(x: u64, y: u64, n: u64, s: u64)
    by (bit_vector)
    requires
        n == ((x & y) + (((x ^ y) & 0xfefefefefefefefe) >> 1u64)) as u64,
        s % 8 == 0,
        s <= 56,
    ensures
        (n >> s) & 0xff == ((((x >> s) & 0xff) + ((y >> s) & 0xff)) / 2) as u64,
{
}

/// The lane-wise mean never overflows the word: the shared bits and the
/// halved non-shared bits stay within every lane.
proof fn lemma_mean_no_overflow(x: u64, y: u64)
    by (bit_vector)
    ensures
        (x & y) + (((x ^ y) & 0xfefefefefefefefe) >> 1u64) <= 0xffffffffffffffff,
{
}

/// The parallel bit count: pairs of bits, then nibbles, then bytes are
/// added in place, and every lane's final byte is the number of bits set
/// in that lane's original byte.
proof fn lemma_popcount_lane(x: u64, a: u64, b: u64, n: u64, c: u8, s: u64)
    by (bit_vector)
    requires
        a == (x - ((x >> 1u64) & 0x5555555555555555)) as u64,
        b == ((a & 0x3333333333333333) + ((a >> 2u64) & 0x3333333333333333)) as u64,
        n == (((b + (b >> 4u64)) as u64) & 0x0f0f0f0f0f0f0f0f),
        c as u64 == (x >> s) & 0xff,
        s % 8 == 0,
        s <= 56,
    ensures
        (n >> s) & 0xff == popcount_byte(c) as u64,
{
}

/// Half the bits of a word, masked even further, never exceed the word.
proof fn lemma_popcount_no_underflow(x: u64)
    by (bit_vector)
    ensures
        ((x >> 1u64) & 0x5555555555555555) <= x,
{
}

/// Spreads the high bit of each lane of `n` into a full `0x00`/`0xff` lane
/// byte. Only meaningful when `n` carries bits on lane-high positions
/// alone, which the caller's mask guarantees.
fn msb_mask(n: u64) -> (r: u64)
    requires
        n & 0x7f7f7f7f7f7f7f7f == 0,
    ensures
        r == ((n >> 7u64) * 255) as u64,
        r == (n >> 7u64) * 255,
{
    proof {
        lemma_high_bits_shift(n);
    }
    (n >> 7u64) * 255
}

impl u8x8 {
    /// Converts an array of eight `u8` values into a [`u8x8`] value.
    pub fn from_array(a: [u8; 8]) -> (r: Self)
        ensures
            r@ == a@,
    {
        let n = (a[0] as u64) | ((a[1] as u64) << 8u64) | ((a[2] as u64) << 16u64) | ((a[3] as u64)
            << 24u64) | ((a[4] as u64) << 32u64) | ((a[5] as u64) << 40u64) | ((a[6] as u64)
            << 48u64) | ((a[7] as u64) << 56u64);
        let r = Self { n };
        proof {
            lemma_pack_bytes(a[0], a[1], a[2], a[3], a[4], a[5], a[6], a[7], n);
            assert forall|i: int| 0 <= i < 8 implies r@[i] == a@[i] by {
                lemma_lane_shift(i);
            }
            assert(r@ =~= a@);
        }
        r
    }

    pub(crate) fn new(n: u64) -> (r: Self)
        ensures
            r.n == n,
    {
        Self { n }
    }

    /// Returns a [`u8x8`] with `v` in all eight of its elements.
    pub fn splat(v: u8) -> (r: Self)
        ensures
            forall|i: int| 0 <= i < 8 ==> r@[i] == v,
    {
        proof {
            assert((v as u64) * ALL_ONES <= 255 * 0x0101010101010101) by (nonlinear_arith)
                requires
                    v <= 255,
            ;
        }
        let n = (v as u64) * ALL_ONES;
        let r = Self { n };
        proof {
            assert forall|i: int| 0 <= i < 8 implies r@[i] == v by {
                lemma_lane_shift(i);
                lemma_splat_lane(v, n, (8 * i) as u64);
            }
        }
        r
    }

    /// Converts the vector into an array of eight `u8` values.
    pub fn to_array(self) -> (r: [u8; 8])
        ensures
            r@ == self@,
    {
        let n = self.n;
        proof {
            lemma_and_bound(n >> 0u64, 0xff);
            lemma_and_bound(n >> 8u64, 0xff);
            lemma_and_bound(n >> 16u64, 0xff);
            lemma_and_bound(n >> 24u64, 0xff);
            lemma_and_bound(n >> 32u64, 0xff);
            lemma_and_bound(n >> 40u64, 0xff);
            lemma_and_bound(n >> 48u64, 0xff);
            lemma_and_bound(n >> 56u64, 0xff);
        }
        let r = [
            ((n >> 0u64) & 0xff) as u8,
            ((n >> 8u64) & 0xff) as u8,
            ((n >> 16u64) & 0xff) as u8,
            ((n >> 24u64) & 0xff) as u8,
            ((n >> 32u64) & 0xff) as u8,
            ((n >> 40u64) & 0xff) as u8,
            ((n >> 48u64) & 0xff) as u8,
            ((n >> 56u64) & 0xff) as u8,
        ];
        proof {
            assert forall|i: int| 0 <= i < 8 implies r@[i] == self@[i] by {
                lemma_lane_shift(i);
            }
            assert(r@ =~= self@);
        }
        r
    }

    /// Computes the bitwise complement of each element in the vector.
    pub fn complement(self) -> (r: Self)
        ensures
            forall|i: int| 0 <= i < 8 ==> r@[i] == !self@[i],
            forall|i: int| 0 <= i < 8 ==> r@[i] as int == 255 - self@[i],
    {
        let x = self.n;
        let r = Self { n: !x };
        proof {
            assert forall|i: int| 0 <= i < 8 implies r@[i] == !self@[i] && r@[i] as int == 255
                - self@[i] by {
                lemma_lane_shift(i);
                lemma_lane_byte_val(x, i);
                lemma_lane_byte_val(!x, i);
                lemma_complement_lane(x, (8 * i) as u64, self@[i]);
            }
        }
        r
    }

    /// Computes a bitwise OR result for each element across both vectors.
    pub fn bitor(self, other: Self) -> (r: Self)
        ensures
            forall|i: int| 0 <= i < 8 ==> r@[i] == (self@[i] | other@[i]),
    {
        let x = self.n;
        let y = other.n;
        let r = Self { n: x | y };
        proof {
            assert forall|i: int| 0 <= i < 8 implies r@[i] == (self@[i] | other@[i]) by {
                lemma_lane_shift(i);
                lemma_lane_byte_val(x, i);
                lemma_lane_byte_val(y, i);
                lemma_lane_byte_val(x | y, i);
                lemma_bitor_lane(x, y, (8 * i) as u64, self@[i], other@[i]);
            }
        }
        r
    }

    /// Computes a bitwise AND result for each element across both vectors.
    pub fn bitand(self, other: Self) -> (r: Self)
        ensures
            forall|i: int| 0 <= i < 8 ==> r@[i] == (self@[i] & other@[i]),
    {
        let x = self.n;
        let y = other.n;
        let r = Self { n: x & y };
        proof {
            assert forall|i: int| 0 <= i < 8 implies r@[i] == (self@[i] & other@[i]) by {
                lemma_lane_shift(i);
                lemma_lane_byte_val(x, i);
                lemma_lane_byte_val(y, i);
                lemma_lane_byte_val(x & y, i);
                lemma_bitand_lane(x, y, (8 * i) as u64, self@[i], other@[i]);
            }
        }
        r
    }

    /// Computes a bitwise XOR result for each element across both vectors.
    pub fn bitxor(self, other: Self) -> (r: Self)
        ensures
            forall|i: int| 0 <= i < 8 ==> r@[i] == (self@[i] ^ other@[i]),
    {
        let x = self.n;
        let y = other.n;
        let r = Self { n: x ^ y };
        proof {
            assert forall|i: int| 0 <= i < 8 implies r@[i] == (self@[i] ^ other@[i]) by {
                lemma_lane_shift(i);
                lemma_lane_byte_val(x, i);
                lemma_lane_byte_val(y, i);
                lemma_lane_byte_val(x ^ y, i);
                lemma_bitxor_lane(x, y, (8 * i) as u64, self@[i], other@[i]);
            }
        }
        r
    }

    /// Compares each element across both vectors and returns a mask value
    /// where `true` represents equality and `false` represents inequality.
    pub fn equals(self, other: Self) -> (r: mask8x8)
        ensures
            r.wf(),
            forall|i: int| 0 <= i < 8 ==> r@[i] == (self@[i] == other@[i]),
    {
        let x = self.n;
        let y = other.n;
        let xo = x ^ y;
        proof {
            lemma_and_bound(xo, WITHOUT_HIGH_BITS);
        }
        let lo = ((xo & WITHOUT_HIGH_BITS) + WITHOUT_HIGH_BITS) | xo;
        let hi = !lo & ONLY_HIGH_BITS;
        let r = mask8x8::new(hi >> 7u64);
        proof {
            assert forall|i: int|
                0 <= i < 8 implies (lane_byte(r.n, i) == 0 || lane_byte(r.n, i) == 1) && (r@[i]
                == (self@[i] == other@[i])) by {
                lemma_lane_shift(i);
                lemma_equals_lane(x, y, lo, r.n, (8 * i) as u64);
                lemma_lane_byte_val(x, i);
                lemma_lane_byte_val(y, i);
                lemma_lane_byte_val(r.n, i);
            }
        }
        r
    }

    /// Compares each element across both vectors and returns a mask value
    /// with elements set to `true` where the corresponding element in `self`
    /// is less than the corresponding element in `other`.
    pub fn less_than(self, other: Self) -> (r: mask8x8)
        ensures
            r.wf(),
            forall|i: int| 0 <= i < 8 ==> r@[i] == (self@[i] < other@[i]),
    {
        let x = self.n;
        let y = other.n;
        proof {
            lemma_or_bound(x, ONLY_HIGH_BITS);
            lemma_and_bound(y, WITHOUT_HIGH_BITS);
        }
        let dif = (x | ONLY_HIGH_BITS) - (y & WITHOUT_HIGH_BITS);
        let sel = ((x & (x ^ y)) | (dif & !(x ^ y))) & ONLY_HIGH_BITS;
        let r = mask8x8::new((sel ^ ONLY_HIGH_BITS) >> 7u64);
        proof {
            assert forall|i: int|
                0 <= i < 8 implies (lane_byte(r.n, i) == 0 || lane_byte(r.n, i) == 1) && (r@[i]
                == (self@[i] < other@[i])) by {
                lemma_lane_shift(i);
                lemma_less_than_lane(x, y, dif, sel, r.n, (8 * i) as u64);
                lemma_lane_byte_val(x, i);
                lemma_lane_byte_val(y, i);
                lemma_lane_byte_val(r.n, i);
            }
        }
        r
    }

    /// Compares each element across both vectors and returns a mask value
    /// with elements set to `true` where the corresponding element in `self`
    /// is greater than the corresponding element in `other`.
    pub fn greater_than(self, other: Self) -> (r: mask8x8)
        ensures
            r.wf(),
            forall|i: int| 0 <= i < 8 ==> r@[i] == (self@[i] > other@[i]),
    {
        let x = self.n;
        let y = other.n;
        proof {
            lemma_or_bound(y, ONLY_HIGH_BITS);
            lemma_and_bound(x, WITHOUT_HIGH_BITS);
        }
        let dif = (y | ONLY_HIGH_BITS) - (x & WITHOUT_HIGH_BITS);
        let sel = ((y & (y ^ x)) | (dif & !(y ^ x))) & ONLY_HIGH_BITS;
        let r = mask8x8::new((sel ^ ONLY_HIGH_BITS) >> 7u64);
        proof {
            assert forall|i: int|
                0 <= i < 8 implies (lane_byte(r.n, i) == 0 || lane_byte(r.n, i) == 1) && (r@[i]
                == (self@[i] > other@[i])) by {
                lemma_lane_shift(i);
                lemma_less_than_lane(y, x, dif, sel, r.n, (8 * i) as u64);
                lemma_lane_byte_val(x, i);
                lemma_lane_byte_val(y, i);
                lemma_lane_byte_val(r.n, i);
            }
        }
        r
    }

    /// Implements addition across corresponding elements, modulo 256.
    pub fn wrapping_add(self, other: Self) -> (r: Self)
        ensures
            forall|i: int| 0 <= i < 8 ==> r@[i] as int == (self@[i] + other@[i]) % 256,
    {
        let x = self.n;
        let y = other.n;
        proof {
            lemma_and_bound(x, WITHOUT_HIGH_BITS);
            lemma_and_bound(y, WITHOUT_HIGH_BITS);
        }
        let low = (x & WITHOUT_HIGH_BITS) + (y & WITHOUT_HIGH_BITS);
        let r = Self { n: low ^ ((x ^ y) & ONLY_HIGH_BITS) };
        proof {
            assert forall|i: int| 0 <= i < 8 implies r@[i] as int == (self@[i] + other@[i])
                % 256 by {
                lemma_lane_shift(i);
                lemma_wrapping_add_lane(x, y, low, r.n, (8 * i) as u64);
                lemma_lane_byte_val(x, i);
                lemma_lane_byte_val(y, i);
                lemma_lane_byte_val(r.n, i);
            }
        }
        r
    }

    /// Implements addition across corresponding elements, saturating at the
    /// maximum value 255.
    pub fn saturating_add(self, other: Self) -> (r: Self)
        ensures
            forall|i: int|
                0 <= i < 8 ==> r@[i] as int == (if self@[i] + other@[i] > 255 {
                    255int
                } else {
                    self@[i] + other@[i]
                }),
    {
        let x = self.n;
        let y = other.n;
        proof {
            lemma_and_bound(x, WITHOUT_HIGH_BITS);
            lemma_and_bound(y, WITHOUT_HIGH_BITS);
        }
        let low = (x & WITHOUT_HIGH_BITS) + (y & WITHOUT_HIGH_BITS);
        let sum = low ^ ((x ^ y) & ONLY_HIGH_BITS);
        let carry = ((x & y) | ((x | y) & !sum)) & ONLY_HIGH_BITS;
        proof {
            lemma_high_mask_disjoint((x & y) | ((x | y) & !sum));
        }
        let m = msb_mask(carry);
        let r = Self { n: sum | m };
        proof {
            assert forall|i: int|
                0 <= i < 8 implies r@[i] as int == (if self@[i] + other@[i] > 255 {
                255int
            } else {
                self@[i] + other@[i]
            }) by {
                lemma_lane_shift(i);
                lemma_saturating_add_lane(x, y, low, sum, carry, m, r.n, (8 * i) as u64);
                lemma_lane_byte_val(x, i);
                lemma_lane_byte_val(y, i);
                lemma_lane_byte_val(r.n, i);
            }
        }
        r
    }

    /// Implements subtraction across corresponding elements, modulo 256.
    pub fn wrapping_sub(self, other: Self) -> (r: Self)
        ensures
            forall|i: int| 0 <= i < 8 ==> r@[i] as int == (self@[i] - other@[i] + 256) % 256,
            forall|i: int| 0 <= i < 8 ==> r@[i] as int == (self@[i] - other@[i]) % 256,
    {
        let x = self.n;
        let y = other.n;
        proof {
            lemma_or_bound(x, ONLY_HIGH_BITS);
            lemma_and_bound(y, WITHOUT_HIGH_BITS);
        }
        let dif = (x | ONLY_HIGH_BITS) - (y & WITHOUT_HIGH_BITS);
        let r = Self { n: dif ^ ((x ^ !y) & ONLY_HIGH_BITS) };
        proof {
            assert forall|i: int| 0 <= i < 8 implies r@[i] as int == (self@[i] - other@[i] + 256)
                % 256 && r@[i] as int == (self@[i] - other@[i]) % 256 by {
                lemma_lane_shift(i);
                lemma_wrapping_sub_lane(x, y, dif, r.n, (8 * i) as u64);
                lemma_lane_byte_val(x, i);
                lemma_lane_byte_val(y, i);
                lemma_lane_byte_val(r.n, i);
                vstd::arithmetic::div_mod::lemma_mod_add_multiples_vanish(
                    self@[i] - other@[i],
                    256,
                );
            }
        }
        r
    }

    /// Implements subtraction across corresponding elements, saturating at
    /// the minimum value 0.
    pub fn saturating_sub(self, other: Self) -> (r: Self)
        ensures
            forall|i: int|
                0 <= i < 8 ==> r@[i] as int == (if self@[i] >= other@[i] {
                    self@[i] - other@[i]
                } else {
                    0int
                }),
    {
        let x = self.n;
        let y = other.n;
        proof {
            lemma_or_bound(x, ONLY_HIGH_BITS);
            lemma_and_bound(y, WITHOUT_HIGH_BITS);
        }
        let dif = (x | ONLY_HIGH_BITS) - (y & WITHOUT_HIGH_BITS);
        let wrapped = dif ^ ((x ^ !y) & ONLY_HIGH_BITS);
        let borrow = ((!x & y) | ((!x | y) & wrapped)) & ONLY_HIGH_BITS;
        proof {
            lemma_high_mask_disjoint((!x & y) | ((!x | y) & wrapped));
        }
        let m = msb_mask(borrow);
        let r = Self { n: wrapped & !m };
        proof {
            assert forall|i: int|
                0 <= i < 8 implies r@[i] as int == (if self@[i] >= other@[i] {
                self@[i] - other@[i]
            } else {
                0int
            }) by {
                lemma_lane_shift(i);
                lemma_saturating_sub_lane(x, y, dif, wrapped, borrow, m, r.n, (8 * i) as u64);
                lemma_lane_byte_val(x, i);
                lemma_lane_byte_val(y, i);
                lemma_lane_byte_val(r.n, i);
            }
        }
        r
    }

    /// Computes the absolute difference between corresponding elements.
    pub fn abs_difference(self, other: Self) -> (r: Self)
        ensures
            forall|i: int|
                0 <= i < 8 ==> r@[i] as int == (if self@[i] >= other@[i] {
                    self@[i] - other@[i]
                } else {
                    other@[i] - self@[i]
                }),
    {
        let x = self.n;
        let y = other.n;
        let d = x.wrapping_sub(y);
        proof {
            assert(x >= y ==> d == ((x - y) as u64));
            assert(x < y ==> d == ((x - y + 0x10000000000000000) as u64));
        }
        let borrow = ((!x & y) | ((!x | y) & d)) & ONLY_HIGH_BITS;
        proof {
            lemma_high_mask_disjoint((!x & y) | ((!x | y) & d));
        }
        let m = msb_mask(borrow);
        let big = (x & !m) | (y & m);
        let small = (x & m) | (y & !m);
        proof {
            lemma_or_bound(big, ONLY_HIGH_BITS);
            lemma_and_bound(small, WITHOUT_HIGH_BITS);
        }
        let dif = (big | ONLY_HIGH_BITS) - (small & WITHOUT_HIGH_BITS);
        let r = Self { n: dif ^ ((big ^ !small) & ONLY_HIGH_BITS) };
        proof {
            assert forall|i: int|
                0 <= i < 8 implies r@[i] as int == (if self@[i] >= other@[i] {
                self@[i] - other@[i]
            } else {
                other@[i] - self@[i]
            }) by {
                lemma_lane_shift(i);
                lemma_abs_difference_lane(
                    x,
                    y,
                    d,
                    borrow,
                    m,
                    big,
                    small,
                    dif,
                    r.n,
                    (8 * i) as u64,
                );
                lemma_lane_byte_val(x, i);
                lemma_lane_byte_val(y, i);
                lemma_lane_byte_val(r.n, i);
            }
        }
        r
    }

    /// Finds the maximum value for each element across both vectors.
    pub fn max(self, other: Self) -> (r: Self)
        ensures
            forall|i: int|
                0 <= i < 8 ==> r@[i] == (if self@[i] >= other@[i] {
                    self@[i]
                } else {
                    other@[i]
                }),
    {
        let x = self.n;
        let y = other.n;
        let d = x.wrapping_sub(y);
        proof {
            assert(x >= y ==> d == ((x - y) as u64));
            assert(x < y ==> d == ((x - y + 0x10000000000000000) as u64));
        }
        let borrow = ((!x & y) | ((!x | y) & d)) & ONLY_HIGH_BITS;
        proof {
            lemma_high_mask_disjoint((!x & y) | ((!x | y) & d));
        }
        let m = msb_mask(borrow);
        let r = Self { n: (x & !m) | (y & m) };
        proof {
            assert forall|i: int|
                0 <= i < 8 implies r@[i] == (if self@[i] >= other@[i] {
                self@[i]
            } else {
                other@[i]
            }) by {
                lemma_lane_shift(i);
                lemma_min_max_lane(x, y, d, borrow, m, r.n, (x & m) | (y & !m), (8 * i) as u64);
                lemma_lane_byte_val(x, i);
                lemma_lane_byte_val(y, i);
                lemma_lane_byte_val(r.n, i);
            }
        }
        r
    }

    /// Finds the minimum value for each element across both vectors.
    pub fn min(self, other: Self) -> (r: Self)
        ensures
            forall|i: int|
                0 <= i < 8 ==> r@[i] == (if self@[i] <= other@[i] {
                    self@[i]
                } else {
                    other@[i]
                }),
    {
        let x = self.n;
        let y = other.n;
        let d = x.wrapping_sub(y);
        proof {
            assert(x >= y ==> d == ((x - y) as u64));
            assert(x < y ==> d == ((x - y + 0x10000000000000000) as u64));
        }
        let borrow = ((!x & y) | ((!x | y) & d)) & ONLY_HIGH_BITS;
        proof {
            lemma_high_mask_disjoint((!x & y) | ((!x | y) & d));
        }
        let m = msb_mask(borrow);
        let r = Self { n: (x & m) | (y & !m) };
        proof {
            assert forall|i: int|
                0 <= i < 8 implies r@[i] == (if self@[i] <= other@[i] {
                self@[i]
            } else {
                other@[i]
            }) by {
                lemma_lane_shift(i);
                lemma_min_max_lane(x, y, d, borrow, m, (x & !m) | (y & m), r.n, (8 * i) as u64);
                lemma_lane_byte_val(x, i);
                lemma_lane_byte_val(y, i);
                lemma_lane_byte_val(r.n, i);
            }
        }
        r
    }

    /// Finds the integer mean value for each element across both vectors.
    ///
    /// This is conceptually the same as `(self + other) / 2`, rounded down
    /// and computed without overflow.
    pub fn mean(self, other: Self) -> (r: Self)
        ensures
            forall|i: int| 0 <= i < 8 ==> r@[i] as int == (self@[i] + other@[i]) / 2,
    {
        let x = self.n;
        let y = other.n;
        proof {
            lemma_mean_no_overflow(x, y);
        }
        let shared = x & y;
        let dif = (x ^ y) & 0xfefefefefefefefe;
        let r = Self { n: shared + (dif >> 1u64) };
        proof {
            assert forall|i: int| 0 <= i < 8 implies r@[i] as int == (self@[i] + other@[i])
                / 2 by {
                lemma_lane_shift(i);
                lemma_mean_lane(x, y, r.n, (8 * i) as u64);
                lemma_lane_byte_val(x, i);
                lemma_lane_byte_val(y, i);
                lemma_lane_byte_val(r.n, i);
            }
        }
        r
    }

    /// Counts the number of bits set in each element.
    pub fn popcount(self) -> (r: Self)
        ensures
            forall|i: int| 0 <= i < 8 ==> r@[i] as int == popcount_byte(self@[i]),
    {
        let x = self.n;
        proof {
            lemma_popcount_no_underflow(x);
        }
        let a = x - ((x >> 1u64) & 0x5555555555555555);
        proof {
            lemma_and_bound(a, 0x3333333333333333);
            lemma_and_bound(a >> 2u64, 0x3333333333333333);
        }
        let b = (a & 0x3333333333333333) + ((a >> 2u64) & 0x3333333333333333);
        proof {
            lemma_shr_le(b, 4);
        }
        let r = Self { n: (b + (b >> 4u64)) & 0x0f0f0f0f0f0f0f0f };
        proof {
            assert forall|i: int| 0 <= i < 8 implies r@[i] as int == popcount_byte(self@[i]) by {
                lemma_lane_shift(i);
                lemma_lane_byte_val(x, i);
                lemma_lane_byte_val(r.n, i);
                lemma_popcount_lane(x, a, b, r.n, self@[i], (8 * i) as u64);
            }
        }
        r
    }

    /// Adds up all eight elements of the vector into one integer.
    pub fn collect_sum(self) -> (r: u32)
        ensures
            r as int == self@[0] + self@[1] + self@[2] + self@[3] + self@[4] + self@[5] + self@[6]
                + self@[7],
    {
        let a = self.to_array();
        (a[0] as u32) + (a[1] as u32) + (a[2] as u32) + (a[3] as u32) + (a[4] as u32) + (
        a[5] as u32) + (a[6] as u32) + (a[7] as u32)
    }
}

/// In every lane, exactly one of the three comparison masks is set: the
/// equality mask from `equals`, the strict order mask from `less_than`,
/// and the strict order mask from `greater_than` are mutually exclusive
/// and together cover all eight lanes.
pub proof fn lemma_comparison_trichotomy(a: u8x8, b: u8x8, e: mask8x8, l: mask8x8, g: mask8x8)
    requires
        forall|i: int| 0 <= i < 8 ==> e@[i] == (a@[i] == b@[i]),
        forall|i: int| 0 <= i < 8 ==> l@[i] == (a@[i] < b@[i]),
        forall|i: int| 0 <= i < 8 ==> g@[i] == (a@[i] > b@[i]),
    ensures
        forall|i: int| 0 <= i < 8 ==> (e@[i] || l@[i] || g@[i]),
        forall|i: int| 0 <= i < 8 ==> !(e@[i] && l@[i]) && !(e@[i] && g@[i]) && !(l@[i] && g@[i]),
{
}

/// Swapping the operands turns one strict comparison into the other: the
/// mask `less_than(a, b)` returns equals the mask `greater_than(b, a)`
/// returns, lane by lane and as a value.
pub proof fn lemma_less_greater_swap(a: u8x8, b: u8x8, l: mask8x8, g: mask8x8)
    requires
        l.wf(),
        g.wf(),
        forall|i: int| 0 <= i < 8 ==> l@[i] == (a@[i] < b@[i]),
        forall|i: int| 0 <= i < 8 ==> g@[i] == (b@[i] > a@[i]),
    ensures
        forall|i: int| 0 <= i < 8 ==> l@[i] == g@[i],
        l == g,
{
    assert(l@ =~= g@);
    crate::mask::lemma_mask_view_injective(l, g);
}

} // verus!
