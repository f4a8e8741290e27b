//! Aspect-preserving fit of an image into a pixel budget, without upscaling.

use vstd::prelude::*;

verus! {

/// The integer nearest to `num / den`, halves rounded away from zero,
/// for `num >= 0` and `den > 0`.
#[verifier::inline]
pub open spec fn round_div(num: int, den: int) -> int {
    (2 * num + den) / (2 * den)
}

/// The scale factor `min(max_w / orig_w, max_h / orig_h, 1)` as a fraction
/// `(numerator, denominator)`, for positive arguments.
pub open spec fn fit_scale(orig_w: int, orig_h: int, max_w: int, max_h: int) -> (int, int) {
    if orig_w <= max_w && orig_h <= max_h {
        (1, 1)
    } else if max_w * orig_h <= max_h * orig_w {
        (max_w, orig_w)
    } else {
        (max_h, orig_h)
    }
}

/// A length scaled by `num / den` and rounded, but never below one pixel.
#[verifier::inline]
pub open spec fn scale_len(len: int, num: int, den: int) -> int {
    let rounded = round_div(len * num, den);
    if rounded < 1 {
        1
    } else {
        rounded
    }
}

/// The fitted dimensions: `(0, 0)` when any argument is zero; the image's
/// own dimensions when it fits the budget; otherwise both dimensions scaled
/// by the smaller of `max_w / orig_w` and `max_h / orig_h`.
#[verifier::inline]
pub open spec fn fit_dims(orig_w: int, orig_h: int, max_w: int, max_h: int) -> (int, int) {
    if orig_w == 0 || orig_h == 0 || max_w == 0 || max_h == 0 {
        (0, 0)
    } else if orig_w <= max_w && orig_h <= max_h {
        (orig_w, orig_h)
    } else if max_w * orig_h <= max_h * orig_w {
        (scale_len(orig_w, max_w, orig_w), scale_len(orig_h, max_w, orig_w))
    } else {
        (scale_len(orig_w, max_h, orig_h), scale_len(orig_h, max_h, orig_h))
    }
}

/// Whether scaling leaves each side of a positive-sized image at half a
/// pixel or more, so that neither has to be raised to one pixel.
pub open spec fn keeps_both_sides(orig_w: int, orig_h: int, max_w: int, max_h: int) -> bool {
    let (num, den) = fit_scale(orig_w, orig_h, max_w, max_h);
    2 * (orig_w * num) >= den && 2 * (orig_h * num) >= den
}

/// The larger of two integers.
pub open spec fn larger(a: int, b: int) -> int {
    if a >= b {
        a
    } else {
        b
    }
}

/// The distance between two integers.
pub open spec fn abs_diff(a: int, b: int) -> int {
    if a >= b {
        a - b
    } else {
        b - a
    }
}

/// Rounding `k * den / den` gives `k` back.
pub proof fn lemma_round_div_exact(k: int, den: int)
    requires
        k >= 0,
        den > 0,
    ensures
        round_div(k * den, den) == k,
{
    assert((2 * (k * den) + den) / (2 * den) == k) by (nonlinear_arith)
        requires
            k >= 0,
            den > 0,
    ;
}

/// Rounding gives no negative result and stays within half a unit of the
/// exact quotient.
pub proof fn lemma_round_div_bounds(num: int, den: int)
    requires
        num >= 0,
        den > 0,
    ensures
        round_div(num, den) >= 0,
        2 * abs_diff(round_div(num, den) * den, num) <= den,
{
    let q = round_div(num, den);
    assert(q >= 0 && 2 * q * den <= 2 * num + den < 2 * q * den + 2 * den) by (nonlinear_arith)
        requires
            num >= 0,
            den > 0,
            q == (2 * num + den) / (2 * den),
    ;
    assert(2 * (q * den) == 2 * q * den) by (nonlinear_arith);
}

/// A quotient whose exact value is at least one half rounds to at least one.
pub proof fn lemma_round_div_ge_one(num: int, den: int)
    requires
        den > 0,
        2 * num >= den,
    ensures
        round_div(num, den) >= 1,
{
    assert((2 * num + den) / (2 * den) >= 1) by (nonlinear_arith)
        requires
            den > 0,
            2 * num >= den,
    ;
}

/// A quotient whose exact value is at most `bound` rounds to at most `bound`.
pub proof fn lemma_round_div_le(num: int, den: int, bound: int)
    requires
        num >= 0,
        den > 0,
        num <= bound * den,
    ensures
        round_div(num, den) <= bound,
{
    assert((2 * num + den) / (2 * den) <= bound) by (nonlinear_arith)
        requires
            num >= 0,
            den > 0,
            num <= bound * den,
    ;
}

/// The scale factor is a fraction in `(0, 1]`, and no larger than either
/// of the two ratios `max_w / orig_w` and `max_h / orig_h`.
pub proof fn lemma_fit_scale_bounds(orig_w: int, orig_h: int, max_w: int, max_h: int)
    requires
        orig_w > 0,
        orig_h > 0,
        max_w > 0,
        max_h > 0,
    ensures
        ({
            let (num, den) = fit_scale(orig_w, orig_h, max_w, max_h);
            &&& 0 < num <= den
            &&& orig_w * num <= max_w * den
            &&& orig_h * num <= max_h * den
        }),
{
    let (num, den) = fit_scale(orig_w, orig_h, max_w, max_h);
    if orig_w <= max_w && orig_h <= max_h {
    } else if max_w * orig_h <= max_h * orig_w {
        assert(max_w <= orig_w) by (nonlinear_arith)
            requires
                orig_w > 0,
                orig_h > 0,
                max_w > 0,
                max_h > 0,
                !(orig_w <= max_w && orig_h <= max_h),
                max_w * orig_h <= max_h * orig_w,
        ;
        assert(orig_w * max_w == max_w * orig_w) by (nonlinear_arith);
        assert(orig_h * max_w == max_w * orig_h) by (nonlinear_arith);
    } else {
        assert(max_h <= orig_h) by (nonlinear_arith)
            requires
                orig_w > 0,
                orig_h > 0,
                max_w > 0,
                max_h > 0,
                !(orig_w <= max_w && orig_h <= max_h),
                max_w * orig_h > max_h * orig_w,
        ;
        assert(orig_h * max_h == max_h * orig_h) by (nonlinear_arith);
        assert(orig_w * max_h == max_h * orig_w) by (nonlinear_arith);
    }
}

/// The fitted dimensions are the image's dimensions scaled by the factor
/// `min(max_w / orig_w, max_h / orig_h, 1)`, each rounded and raised to at
/// least one pixel.
pub proof fn lemma_fit_dims_by_scale(orig_w: int, orig_h: int, max_w: int, max_h: int)
    requires
        orig_w > 0,
        orig_h > 0,
        max_w > 0,
        max_h > 0,
    ensures
        ({
            let (num, den) = fit_scale(orig_w, orig_h, max_w, max_h);
            fit_dims(orig_w, orig_h, max_w, max_h) == (
                scale_len(orig_w, num, den),
                scale_len(orig_h, num, den),
            )
        }),
{
    if orig_w <= max_w && orig_h <= max_h {
        lemma_round_div_exact(orig_w, 1);
        lemma_round_div_exact(orig_h, 1);
    }
}

/// The fitted image lies within the budget and within the source image,
/// and has at least one pixel in each direction.
pub proof fn lemma_fit_within_budget(orig_w: int, orig_h: int, max_w: int, max_h: int)
    requires
        orig_w > 0,
        orig_h > 0,
        max_w > 0,
        max_h > 0,
    ensures
        1 <= fit_dims(orig_w, orig_h, max_w, max_h).0 <= max_w,
        1 <= fit_dims(orig_w, orig_h, max_w, max_h).1 <= max_h,
        fit_dims(orig_w, orig_h, max_w, max_h).0 <= orig_w,
        fit_dims(orig_w, orig_h, max_w, max_h).1 <= orig_h,
{
    let (num, den) = fit_scale(orig_w, orig_h, max_w, max_h);
    lemma_fit_scale_bounds(orig_w, orig_h, max_w, max_h);
    lemma_round_div_le(orig_w * num, den, max_w);
    lemma_round_div_le(orig_h * num, den, max_h);
    assert(orig_w * num <= orig_w * den && orig_h * num <= orig_h * den) by (nonlinear_arith)
        requires
            orig_w > 0,
            orig_h > 0,
            0 < num <= den,
    ;
    lemma_round_div_le(orig_w * num, den, orig_w);
    lemma_round_div_le(orig_h * num, den, orig_h);
}

/// An image that already fits the budget keeps its dimensions.
pub proof fn lemma_fit_no_upscale(orig_w: int, orig_h: int, max_w: int, max_h: int)
    requires
        0 < orig_w <= max_w,
        0 < orig_h <= max_h,
    ensures
        fit_dims(orig_w, orig_h, max_w, max_h) == (orig_w, orig_h),
{
}

/// The fitted aspect ratio is that of the source image up to rounding:
/// where neither side had to be raised to one pixel, the cross product
/// `new_w * orig_h - new_h * orig_w` is at most half the larger of
/// `orig_w` and `orig_h` in magnitude.
pub proof fn lemma_fit_keeps_aspect(orig_w: int, orig_h: int, max_w: int, max_h: int)
    requires
        orig_w > 0,
        orig_h > 0,
        max_w > 0,
        max_h > 0,
        keeps_both_sides(orig_w, orig_h, max_w, max_h),
    ensures
        ({
            let (new_w, new_h) = fit_dims(orig_w, orig_h, max_w, max_h);
            2 * abs_diff(new_w * orig_h, new_h * orig_w) <= larger(orig_w, orig_h)
        }),
{
    let (new_w, new_h) = fit_dims(orig_w, orig_h, max_w, max_h);
    if orig_w <= max_w && orig_h <= max_h {
        assert(new_w * orig_h == new_h * orig_w) by (nonlinear_arith)
            requires
                new_w == orig_w,
                new_h == orig_h,
        ;
    } else if max_w * orig_h <= max_h * orig_w {
        // The width is the binding side: it becomes max_w exactly.
        lemma_round_div_exact(max_w, orig_w);
        assert(orig_w * max_w == max_w * orig_w) by (nonlinear_arith);
        lemma_round_div_ge_one(orig_h * max_w, orig_w);
        lemma_round_div_bounds(orig_h * max_w, orig_w);
        assert(new_w * orig_h == orig_h * max_w) by (nonlinear_arith)
            requires
                new_w == max_w,
        ;
    } else {
        lemma_round_div_exact(max_h, orig_h);
        assert(orig_h * max_h == max_h * orig_h) by (nonlinear_arith);
        lemma_round_div_ge_one(orig_w * max_h, orig_h);
        lemma_round_div_bounds(orig_w * max_h, orig_h);
        assert(new_h * orig_w == orig_w * max_h) by (nonlinear_arith)
            requires
                new_h == max_h,
        ;
    }
}

/// Scales one length by `num / den`, rounding halves up and never returning
/// less than one.
fn scale_dimension(len: u32, num: u32, den: u32) -> (out: u32)
    requires
        0 < num <= den,
    ensures
        out == scale_len(len as int, num as int, den as int),
{
    proof {
        assert(len * num <= len * den) by (nonlinear_arith)
            requires
                0 < num <= den,
        ;
        lemma_round_div_le(len * num, den as int, len as int);
        lemma_round_div_bounds(len * num, den as int);
        assert(0 <= len * num <= 0xffff_ffff * 0xffff_ffff) by (nonlinear_arith)
            requires
                len <= 0xffff_ffff,
                num <= 0xffff_ffff,
        ;
    }
    let product: u128 = (len as u128) * (num as u128);
    let rounded: u128 = (2 * product + den as u128) / (2 * den as u128);
    if rounded < 1 {
        1
    } else {
        rounded as u32
    }
}

/// Fits an `orig_w` x `orig_h` image into a `max_w` x `max_h` pixel budget.
///
/// Returns `(0, 0)` when any argument is zero. Otherwise both dimensions are
/// scaled by `min(max_w / orig_w, max_h / orig_h, 1)`, rounded to the nearest
/// integer with halves rounded up, and raised to at least one pixel. The
/// arithmetic is exact: no rounding happens before the final one.
pub fn compute_scaled_dims(orig_w: u32, orig_h: u32, max_w: u32, max_h: u32) -> (dims: (u32, u32))
    ensures
        dims.0 == fit_dims(orig_w as int, orig_h as int, max_w as int, max_h as int).0,
        dims.1 == fit_dims(orig_w as int, orig_h as int, max_w as int, max_h as int).1,
        (orig_w == 0 || orig_h == 0 || max_w == 0 || max_h == 0) ==> dims == (0u32, 0u32),
        (orig_w > 0 && orig_h > 0 && max_w > 0 && max_h > 0) ==> {
            &&& 1 <= dims.0 <= max_w
            &&& 1 <= dims.1 <= max_h
            &&& dims.0 <= orig_w
            &&& dims.1 <= orig_h
            &&& keeps_both_sides(orig_w as int, orig_h as int, max_w as int, max_h as int) ==> 2
                * abs_diff(dims.0 * orig_h, dims.1 * orig_w) <= larger(
                orig_w as int,
                orig_h as int,
            )
        },
        (0 < orig_w <= max_w && 0 < orig_h <= max_h) ==> dims == (orig_w, orig_h),
{
    if max_w == 0 || max_h == 0 || orig_w == 0 || orig_h == 0 {
        return (0, 0);
    }
    proof {
        lemma_fit_within_budget(orig_w as int, orig_h as int, max_w as int, max_h as int);
        lemma_fit_scale_bounds(orig_w as int, orig_h as int, max_w as int, max_h as int);
        if keeps_both_sides(orig_w as int, orig_h as int, max_w as int, max_h as int) {
            lemma_fit_keeps_aspect(orig_w as int, orig_h as int, max_w as int, max_h as int);
        }
    }
    if orig_w <= max_w && orig_h <= max_h {
        return (orig_w, orig_h);
    }
    assert(max_w * orig_h <= 0xffff_ffff * 0xffff_ffff && max_h * orig_w <= 0xffff_ffff
        * 0xffff_ffff) by (nonlinear_arith)
        requires
            max_w <= 0xffff_ffff,
            max_h <= 0xffff_ffff,
            orig_w <= 0xffff_ffff,
            orig_h <= 0xffff_ffff,
    ;
    let width_bound: bool = (max_w as u64) * (orig_h as u64) <= (max_h as u64) * (orig_w as u64);
    if width_bound {
        (scale_dimension(orig_w, max_w, orig_w), scale_dimension(orig_h, max_w, orig_w))
    } else {
        (scale_dimension(orig_w, max_h, orig_h), scale_dimension(orig_h, max_h, orig_h))
    }
}

} // verus!
