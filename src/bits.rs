//! Bit-level operations on chromosome values of a given width.
use vstd::arithmetic::power2::{lemma2_to64_rest, pow2};
use vstd::bits::{lemma_u64_pow2_no_overflow, lemma_u64_shl_is_mul};
use vstd::prelude::*;

verus! {

/// The value whose lowest `z` bits are set and all others clear,
/// that is `2^z - 1` (all ones from a width of 64 on).
pub open spec fn low_mask_spec(z: u64) -> u64 {
    if z >= 64 {
        u64::MAX
    } else {
        ((1u64 << z) - 1) as u64
    }
}

/// A value fits in `width` bits.
pub open spec fn fits(v: u64, width: u64) -> bool {
    v <= low_mask_spec(width)
}

/// A value fits in `width` bits exactly when it is below `2^width`.
pub proof fn lemma_fits_below_pow2(v: u64, width: u64)
    requires
        width <= 64,
    ensures
        fits(v, width) <==> v < pow2(width as nat),
{
    if width == 64 {
        lemma2_to64_rest();
    } else {
        lemma_u64_pow2_no_overflow(width as nat);
        lemma_u64_shl_is_mul(1, width);
    }
}

/// The mask of the lowest `z` bits, without ever shifting by the full width.
pub fn low_mask(z: u64) -> (r: u64)
    ensures
        r == low_mask_spec(z),
{
    if z >= 64 {
        u64::MAX
    } else {
        assert(1u64 << z >= 1) by (bit_vector)
            requires
                z < 64,
        ;
        (1u64 << z) - 1
    }
}

/// `hi`'s bits above the lowest `z`, joined with `lo`'s lowest `z` bits.
pub open spec fn exchange_low_spec(hi: u64, lo: u64, z: u64) -> u64 {
    (hi & !low_mask_spec(z)) | (lo & low_mask_spec(z))
}

/// `v` with bit `b` inverted.
pub open spec fn flip_spec(v: u64, b: u64) -> u64 {
    v ^ (1u64 << b)
}

/// Two values that differ by the inversion of one bit below `width`.
pub open spec fn one_flip_apart(before: u64, after: u64, width: u64) -> bool {
    exists|b: u64| b < width && after == #[trigger] flip_spec(before, b)
}

/// Single-point crossover: keeps `hi` above the lowest `z` bits and takes
/// the lowest `z` bits from `lo`. Values of a width stay in it.
pub fn exchange_low(hi: u64, lo: u64, z: u64, width: u64) -> (r: u64)
    requires
        z <= width,
    ensures
        r == exchange_low_spec(hi, lo, z),
        fits(hi, width) && fits(lo, width) ==> fits(r, width),
{
    let mask = low_mask(z);
    let r = (hi & !mask) | (lo & mask);
    proof {
        lemma_exchange_fits(hi, lo, z, width);
    }
    r
}

/// Inverts bit `b` of `v`. A value of a width stays in it when `b` is below it.
pub fn flip_bit(v: u64, b: u64, width: u64) -> (r: u64)
    requires
        b < width,
        width <= 64,
    ensures
        r == flip_spec(v, b),
        fits(v, width) ==> fits(r, width),
{
    let r = v ^ (1u64 << b);
    proof {
        lemma_flip_fits(v, b, width);
    }
    r
}

proof fn lemma_exchange_fits(hi: u64, lo: u64, z: u64, width: u64)
    requires
        z <= width,
    ensures
        fits(hi, width) && fits(lo, width) ==> fits(exchange_low_spec(hi, lo, z), width),
{
    let mz = low_mask_spec(z);
    let mw = low_mask_spec(width);
    if width >= 64 {
        assert(((hi & !mz) | (lo & mz)) <= u64::MAX) by (bit_vector);
    } else {
        assert(mz == ((1u64 << z) - 1) as u64);
        assert(mw == ((1u64 << width) - 1) as u64);
        assert(z <= width && width < 64 && hi <= ((1u64 << width) - 1) as u64 && lo <= ((1u64
            << width) - 1) as u64 ==> ((hi & !(((1u64 << z) - 1) as u64)) | (lo & (((1u64 << z)
            - 1) as u64))) <= ((1u64 << width) - 1) as u64) by (bit_vector);
    }
}

proof fn lemma_flip_fits(v: u64, b: u64, width: u64)
    requires
        b < width,
        width <= 64,
    ensures
        fits(v, width) ==> fits(flip_spec(v, b), width),
{
    if width < 64 {
        assert(low_mask_spec(width) == ((1u64 << width) - 1) as u64);
        assert(b < width && width < 64 && v <= ((1u64 << width) - 1) as u64 ==> (v ^ (1u64 << b))
            <= ((1u64 << width) - 1) as u64) by (bit_vector);
    }
}

/// Exchanging all bits of a width hands over the other value whole, and
/// exchanging none leaves the first value as it was.
pub proof fn lemma_exchange_extremes(x: u64, y: u64, width: u64)
    requires
        width <= 64,
        fits(x, width),
        fits(y, width),
    ensures
        exchange_low_spec(x, y, width) == y,
        exchange_low_spec(x, y, 0) == x,
{
    assert(low_mask_spec(0) == 0) by {
        assert(((1u64 << 0u64) - 1) as u64 == 0) by (bit_vector);
    }
    assert((x & !0u64) | (y & 0u64) == x) by (bit_vector);
    if width >= 64 {
        assert((x & !u64::MAX) | (y & u64::MAX) == y) by (bit_vector);
    } else {
        assert(width < 64 && x <= ((1u64 << width) - 1) as u64 && y <= ((1u64 << width) - 1) as u64
            ==> (x & !(((1u64 << width) - 1) as u64)) | (y & (((1u64 << width) - 1) as u64)) == y)
            by (bit_vector);
    }
}

/// Bit `j` of `v`.
pub open spec fn bit(v: u64, j: u64) -> u64 {
    (v >> j) & 1
}

/// `x` and `y` differ in bit `b` and in no other of their 64 bits.
pub open spec fn differs_only_at(x: u64, y: u64, b: u64) -> bool {
    forall|j: u64| j < 64 ==> (#[trigger] bit(y, j) != bit(x, j) <==> j == b)
}

/// `y` is `x` changed in exactly one bit position, which lies below `width`.
pub open spec fn changed_in_one_bit(x: u64, y: u64, width: u64) -> bool {
    exists|b: u64| b < width && #[trigger] differs_only_at(x, y, b)
}

/// Inverting bit `b` changes that bit and no other.
pub proof fn lemma_flip_changes_one_bit(v: u64, b: u64)
    requires
        b < 64,
    ensures
        differs_only_at(v, flip_spec(v, b), b),
{
    assert forall|j: u64| j < 64 implies (#[trigger] bit(flip_spec(v, b), j) != bit(v, j) <==> j
        == b) by {
        assert(b < 64 && j < 64 ==> ((((v ^ (1u64 << b)) >> j) & 1 != (v >> j) & 1) <==> j == b))
            by (bit_vector);
    }
}

} // verus!
