//! The pan law: how a node's volume and stereo position become one gain per
//! channel.
//!
//! Volume, pan and gain are fixed-point values: [`UNIT`] stands for one, so a
//! volume of `UNIT` is unity gain and a pan of `-UNIT`, `0`, `UNIT` is hard
//! left, center, hard right. The law is equal-gain (linear): the channel the
//! pan points toward carries the full volume, the other is attenuated
//! linearly, reaching silence at the extremes. Pan positions outside
//! `[-UNIT, UNIT]` are accepted and simply produce gains outside `[0, UNIT]`;
//! nothing is clamped.

use vstd::arithmetic::div_mod::lemma_div_multiples_vanish;
use vstd::arithmetic::div_mod::lemma_div_nonincreasing;
use vstd::prelude::*;

verus! {

/// The amplitude multiplier of a node, in fixed-point units of `1 / UNIT`.
pub type Volume = i64;

/// The stereo position of a node, in fixed-point units of `1 / UNIT`:
/// `-UNIT` is hard left, `0` is center, `UNIT` is hard right.
pub type Panning = i64;

/// One whole unit of the fixed-point scale.
pub const UNIT: i64 = 65536;

/// Magnitude of an integer.
pub open spec fn iabs(a: int) -> int {
    if a >= 0 {
        a
    } else {
        -a
    }
}

/// Truncating division by [`UNIT`] (rounding toward zero): the rescaling step
/// that follows every fixed-point multiplication.
pub open spec fn scaled(p: int) -> int {
    if p >= 0 {
        p / (UNIT as int)
    } else {
        -((-p) / (UNIT as int))
    }
}

/// Gain of the left channel. Toward the right (`pan >= 0`) the left channel
/// is attenuated linearly with the distance of `pan` from `UNIT`; toward the
/// left it carries the full volume.
pub open spec fn gain_left(vol: int, pan: int) -> int {
    if pan >= 0 {
        scaled(vol * iabs(pan - UNIT))
    } else {
        vol
    }
}

/// Gain of the right channel, the mirror image of [`gain_left`]: full volume
/// toward the right, linear attenuation toward the left.
pub open spec fn gain_right(vol: int, pan: int) -> int {
    if pan >= 0 {
        vol
    } else {
        scaled(vol * (pan + UNIT))
    }
}

/// Gain of interleaved channel `j`: channel 0 is left, channel 1 is right.
pub open spec fn channel_gain(vol: int, pan: int, j: int) -> int {
    if j == 0 {
        gain_left(vol, pan)
    } else {
        gain_right(vol, pan)
    }
}

/// The product formed while deriving the gains fits in a machine word — the
/// one machine limit on volume and pan; the law itself accepts any values.
pub open spec fn gain_fits(vol: int, pan: int) -> bool {
    if pan >= 0 {
        -(i64::MAX as int) <= vol * iabs(pan - UNIT) <= i64::MAX as int
    } else {
        -(i64::MAX as int) <= vol * (pan + UNIT) <= i64::MAX as int
    }
}

/// Divide by [`UNIT`], rounding toward zero.
pub(crate) fn scale_down(p: i64) -> (r: i64)
    requires
        -(i64::MAX as int) <= p as int,
    ensures
        r as int == scaled(p as int),
{
    if p >= 0 {
        let q = (p as u64) / (UNIT as u64);
        proof {
            lemma_div_nonincreasing(p as int, UNIT as int);
        }
        q as i64
    } else {
        let m = (-p) as u64;
        let q = m / (UNIT as u64);
        proof {
            lemma_div_nonincreasing(m as int, UNIT as int);
        }
        -(q as i64)
    }
}

/// Multiply two fixed-point values and rescale the product.
pub(crate) fn mul_scaled(a: i64, b: i64) -> (r: i64)
    requires
        -(i64::MAX as int) <= a as int * b as int <= i64::MAX as int,
    ensures
        r as int == scaled(a as int * b as int),
{
    scale_down(a * b)
}

/// Rescaling a product by a whole [`UNIT`] is exact: multiplying by a gain of
/// one returns the value unchanged.
pub proof fn lemma_scaled_unit(a: int)
    ensures
        scaled(a * (UNIT as int)) == a,
{
    if a >= 0 {
        lemma_div_multiples_vanish(a, UNIT as int);
        assert(a * (UNIT as int) == (UNIT as int) * a) by (nonlinear_arith);
    } else {
        lemma_div_multiples_vanish(-a, UNIT as int);
        assert(-(a * (UNIT as int)) == (UNIT as int) * (-a)) by (nonlinear_arith);
    }
}

/// Law: at center pan both channels carry the node's volume unchanged.
pub proof fn lemma_gain_center(vol: int)
    ensures
        gain_left(vol, 0) == vol,
        gain_right(vol, 0) == vol,
{
    assert(iabs(0 - UNIT) == UNIT as int);
    lemma_scaled_unit(vol);
}

/// Law: at the extremes the channel the pan points away from is silenced and
/// the other carries the full volume, whatever the volume is.
pub proof fn lemma_gain_extremes(vol: int)
    ensures
        gain_left(vol, UNIT as int) == 0,
        gain_right(vol, UNIT as int) == vol,
        gain_left(vol, -(UNIT as int)) == vol,
        gain_right(vol, -(UNIT as int)) == 0,
{
    assert(vol * iabs(UNIT as int - UNIT) == 0) by (nonlinear_arith);
    assert(vol * (-(UNIT as int) + UNIT) == 0) by (nonlinear_arith);
}

} // verus!
