//! Scaling arithmetic: fitting an image's native pixel size into a bounding
//! box under a scaling policy, exactly, over integers.

use vstd::prelude::*;

use crate::config::ImageScaling;
use crate::percent::Percent;

verus! {

/// A size or position in whole pixels.
#[derive(Copy, Clone, Debug, PartialEq, Eq, Structural)]
pub struct Pixels {
    pub x: u32,
    pub y: u32,
}

/// The product of two values that each fit in a `u32` fits in a `u64`.
proof fn lemma_u32_mul_fits(x: u32, y: u32)
    by (nonlinear_arith)
    ensures
        (x as int) * (y as int) <= u64::MAX,
{
}

/// The numerator and denominator of the scale factor a policy picks: the
/// bounding side over the native side, and for `Fit` the smaller of the two
/// ratios.
pub open spec fn fit_fraction(bounding: Pixels, other: Pixels, scaling: ImageScaling) -> (
    int,
    int,
) {
    match scaling {
        ImageScaling::FitToWidth => (bounding.x as int, other.x as int),
        ImageScaling::FitToHeight => (bounding.y as int, other.y as int),
        _ => {
            if bounding.x * other.y <= bounding.y * other.x {
                (bounding.x as int, other.x as int)
            } else {
                (bounding.y as int, other.y as int)
            }
        },
    }
}

/// What `scale` yields: the native size multiplied by the policy's scale
/// factor, rounded down, with the factor in whole percent points (rounded
/// down); `None` when an input side is zero or a scaled side leaves `u32`.
pub open spec fn scale_spec(bounding: Pixels, other: Pixels, scaling: ImageScaling) -> Option<
    (Pixels, Percent),
> {
    if bounding.x == 0 || bounding.y == 0 || other.x == 0 || other.y == 0 {
        None
    } else if (scaling matches ImageScaling::NoScaling) {
        Some((other, Percent(100)))
    } else {
        let (sn, sd) = fit_fraction(bounding, other, scaling);
        let tx = other.x * sn / sd;
        let ty = other.y * sn / sd;
        if tx <= u32::MAX && ty <= u32::MAX {
            Some(((Pixels { x: tx as u32, y: ty as u32 }), Percent((100 * sn / sd) as u64)))
        } else {
            None
        }
    }
}

/// Scales the native size `other` to fit `bounding` under `scaling`.
pub fn scale(bounding: Pixels, other: Pixels, scaling: ImageScaling) -> (r: Option<
    (Pixels, Percent),
>)
    ensures
        r == scale_spec(bounding, other, scaling),
{
    if bounding.x == 0 || bounding.y == 0 || other.x == 0 || other.y == 0 {
        return None;
    }
    if let ImageScaling::NoScaling = scaling {
        return Some((other, Percent(100)));
    }
    proof {
        lemma_u32_mul_fits(bounding.x, other.y);
        lemma_u32_mul_fits(bounding.y, other.x);
        lemma_u32_mul_fits(bounding.x, bounding.x);
        lemma_u32_mul_fits(other.x, bounding.x);
        lemma_u32_mul_fits(other.x, bounding.y);
        lemma_u32_mul_fits(other.y, bounding.x);
        lemma_u32_mul_fits(other.y, bounding.y);
    }
    let (sn, sd): (u64, u64) = match scaling {
        ImageScaling::FitToWidth => (bounding.x as u64, other.x as u64),
        ImageScaling::FitToHeight => (bounding.y as u64, other.y as u64),
        _ => {
            if (bounding.x as u64) * (other.y as u64) <= (bounding.y as u64) * (other.x
                as u64) {
                (bounding.x as u64, other.x as u64)
            } else {
                (bounding.y as u64, other.y as u64)
            }
        },
    };
    let tx = (other.x as u64) * sn / sd;
    let ty = (other.y as u64) * sn / sd;
    if tx > u32::MAX as u64 || ty > u32::MAX as u64 {
        return None;
    }
    Some((Pixels { x: tx as u32, y: ty as u32 }, Percent(100 * sn / sd)))
}

/// Scales `other` to the largest size of the same shape inside `bounding`.
pub fn scale_to_fit(bounding: Pixels, other: Pixels) -> (r: Option<(Pixels, Percent)>)
    ensures
        r == scale_spec(bounding, other, ImageScaling::Fit),
{
    scale(bounding, other, ImageScaling::Fit)
}

} // verus!
