//! Small numeric helpers: minimum, maximum and clamping with the exact
//! behaviour of the comparisons they are built from, and the one source of
//! randomness the library draws from.
use crate::scalar::Scalar;
use crate::vec3::Vec3;
use rand::Rng;
use vstd::arithmetic::power2::pow2;
use vstd::bits::lemma_u64_shr_is_div;
use vstd::prelude::*;

verus! {

/// `a` if `a <= b`, else `b`. With a NaN on either side the comparison is
/// false, so the second argument comes back.
pub open spec fn fmin_spec(a: Scalar, b: Scalar) -> Scalar {
    if a.le_spec(b) {
        a
    } else {
        b
    }
}

/// `b` if `a <= b`, else `a`. With a NaN on either side the first argument
/// comes back.
pub open spec fn fmax_spec(a: Scalar, b: Scalar) -> Scalar {
    if a.le_spec(b) {
        b
    } else {
        a
    }
}

/// `min` below `min`, `max` above `max`, else `x` itself (a NaN too).
pub open spec fn clamp_spec(x: Scalar, min: Scalar, max: Scalar) -> Scalar {
    if x.lt_spec(min) {
        min
    } else if max.lt_spec(x) {
        max
    } else {
        x
    }
}

pub fn fmin(a: Scalar, b: Scalar) -> (m: Scalar)
    ensures
        m == fmin_spec(a, b),
{
    if a.le(b) {
        a
    } else {
        b
    }
}

pub fn fmax(a: Scalar, b: Scalar) -> (m: Scalar)
    ensures
        m == fmax_spec(a, b),
{
    if a.le(b) {
        b
    } else {
        a
    }
}

pub fn clamp(x: Scalar, min: Scalar, max: Scalar) -> (c: Scalar)
    ensures
        c == clamp_spec(x, min, max),
{
    if x.lt(min) {
        return min;
    }
    if max.lt(x) {
        return max;
    }
    x
}

/// Calls `gen_range` of `rand::Rng`, on the generator that `rand::thread_rng`
/// hands out, with the inclusive range `min..=max`. The range must not be
/// empty, or the call panics; the draw lies in the range. Which value comes
/// is left open, and nothing of this is proved here.
#[verifier::external_body]
pub(crate) fn random_int(min: i32, max: i32) -> (n: i32)
    requires
        min <= max,
    ensures
        min <= n <= max,
{
    rand::thread_rng().gen_range(min..=max)
}

/// The encoding of `0.999`, the brightest a channel gets.
pub const BRIGHTEST_BITS: u64 = 0x3FEF_F7CE_D916_872B;

/// Two to the power 52: one more than the largest mantissa.
pub const HIDDEN_BIT: u64 = 0x10_0000_0000_0000;

/// The exponent field of a number that is not negative.
pub open spec fn exponent_spec(c: Scalar) -> int {
    c.bits as int / HIDDEN_BIT as int
}

/// The significand of a normal number that is not negative: the mantissa
/// with the hidden bit in front.
pub open spec fn significand_spec(c: Scalar) -> int {
    HIDDEN_BIT + c.bits as int % HIDDEN_BIT as int
}

/// A channel as a byte: `256` times the number, rounded down, for a number
/// from zero up to but not including one. A normal number is its significand
/// times two to the power of its exponent field less `1075`, so `256` times
/// it, rounded down, is the significand divided by two to the power of
/// `1067` less the exponent field. Anything below `1 / 256`, and a NaN,
/// gives zero.
pub open spec fn quantize_spec(c: Scalar) -> int {
    if c.nan() || c.negative() || exponent_spec(c) < 1015 || exponent_spec(c) > 1022 {
        0
    } else {
        significand_spec(c) / pow2((1067 - exponent_spec(c)) as nat) as int
    }
}

/// The byte of a channel: the channel clamped to `[0, 0.999]`, times `256`,
/// rounded down.
pub open spec fn pixel_byte_spec(channel: Scalar) -> int {
    quantize_spec(clamp_spec(channel, Scalar { bits: 0 }, Scalar { bits: BRIGHTEST_BITS }))
}

pub fn pixel_byte(channel: Scalar) -> (byte: u8)
    ensures
        byte == pixel_byte_spec(channel),
{
    let c = clamp(channel, Scalar::zero(), Scalar::from_bits(BRIGHTEST_BITS));
    if c.is_nan() || c.bits >= crate::scalar::SIGN_BIT {
        return 0;
    }
    let exponent: u64 = c.bits / HIDDEN_BIT;
    if exponent < 1015 || exponent > 1022 {
        return 0;
    }
    let significand: u64 = HIDDEN_BIT + c.bits % HIDDEN_BIT;
    let shift: u64 = 1067 - exponent;
    let scaled: u64 = significand >> shift;
    proof {
        lemma_u64_shr_is_div(significand, shift);
    }
    assert(scaled < 256) by (bit_vector)
        requires
            scaled == significand >> shift,
            significand < 0x20_0000_0000_0000,
            45 <= shift <= 52,
    ;
    scaled as u8
}

/// The three bytes of a pixel from its three channels, each already averaged
/// over the samples and gamma-corrected by a square root.
pub fn get_pixel_color(color: Vec3) -> (pixel: [u8; 3])
    ensures
        pixel@.len() == 3,
        pixel@[0] == pixel_byte_spec(color.x),
        pixel@[1] == pixel_byte_spec(color.y),
        pixel@[2] == pixel_byte_spec(color.z),
{
    [pixel_byte(color.x), pixel_byte(color.y), pixel_byte(color.z)]
}

} // verus!
