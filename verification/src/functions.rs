//! Ready-made output transformations for the composition layer.

use vstd::prelude::*;
use crate::fixed::UNIT;
use crate::noise::Transform;

verus! {

/// The families of ready-made transformations.
pub enum Functions {
    Easing(EasingFunctions),
}

/// Easing curves. Only the identity easing is provided so far.
pub enum EasingFunctions {
    Identity,
}

/// Clamps a mathematical integer into the `i64` range.
pub open spec fn clip_i64(v: int) -> int {
    if v < i64::MIN as int {
        i64::MIN as int
    } else if v > i64::MAX as int {
        i64::MAX as int
    } else {
        v
    }
}

/// Linear range change: maps a value in `[0, 1]` onto `[min, max]` by
/// `min + value * (max - min)`, saturating at the `i64` range.
pub open spec fn spec_change_range(value: int, min: int, max: int) -> int {
    clip_i64(min + value * (max - min) / (UNIT as int))
}

/// Floor division of a product-scale value by one unit, for either
/// sign of the dividend.
fn div_unit_floor(a: i128) -> (r: i128)
    requires
        -0x7FFF_FFFF_FFFF_FFFF_8000_0000_0000_0000 <= a
            <= 0x7FFF_FFFF_FFFF_FFFF_8000_0000_0000_0000,
    ensures
        r == a as int / (UNIT as int),
{
    if a >= 0 {
        a / (UNIT as i128)
    } else {
        proof {
            vstd::arithmetic::div_mod::lemma_fundamental_div_mod(a as int, UNIT as int);
            vstd::arithmetic::div_mod::lemma_mod_bound(a as int, UNIT as int);
            vstd::arithmetic::div_mod::lemma_fundamental_div_mod_converse(
                -(a as int) + UNIT - 1, UNIT as int, -(a as int / (UNIT as int)),
                UNIT - 1 - (a as int) % (UNIT as int));
        }
        -((-a + (UNIT as i128 - 1)) / (UNIT as i128))
    }
}

/// Maps a value in `[0, 1]` onto the range `[min, max]`:
/// `min + value * (max - min)`, saturating at the `i64` range.
pub fn change_range(value: i64, min: i64, max: i64) -> (r: i64)
    ensures
        r == spec_change_range(value as int, min as int, max as int),
{
    proof {
        assert(-0x7FFF_FFFF_FFFF_FFFF_8000_0000_0000_0000
            <= (value as int) * ((max as int) - (min as int))
            <= 0x7FFF_FFFF_FFFF_FFFF_8000_0000_0000_0000) by (nonlinear_arith)
            requires
                -0x8000_0000_0000_0000 <= value as int <= 0x7FFF_FFFF_FFFF_FFFF
                    && -0xFFFF_FFFF_FFFF_FFFF <= (max as int) - (min as int)
                        <= 0xFFFF_FFFF_FFFF_FFFF;
    }
    let prod: i128 = (value as i128) * ((max as i128) - (min as i128));
    let scaled = div_unit_floor(prod);
    let sum: i128 = (min as i128) + scaled;
    if sum > i64::MAX as i128 {
        i64::MAX
    } else if sum < i64::MIN as i128 {
        i64::MIN
    } else {
        sum as i64
    }
}

/// A linear range change registered as a transform: carries the target
/// range and applies [`change_range`].
#[derive(Clone, Copy, Debug)]
pub struct ChangeRange {
    pub min: i64,
    pub max: i64,
}

impl Transform for ChangeRange {
    type In = i64;

    type Out = i64;

    open spec fn spec_apply(&self, v: i64) -> i64 {
        spec_change_range(v as int, self.min as int, self.max as int) as i64
    }

    fn apply(&self, v: i64) -> (r: i64) {
        change_range(v, self.min, self.max)
    }
}

} // verus!
