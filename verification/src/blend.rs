//! Blending of single channels, each a byte that stands for `k / 255`.

use vstd::prelude::*;
use crate::math::{round_div, div_round, lemma_round_div_monotonic, lemma_round_div_exact};

verus! {

/// `current + new * (1 - current)` on fractions of 255, rounded to a byte.
pub open spec fn paint_channel_value(current: u8, new: u8) -> nat {
    round_div((255 * (current + new) - current * new) as nat, 255)
}

/// `current * (1 - alpha * opacity)` on fractions of 255, rounded to a byte.
pub open spec fn erase_alpha_value(current: u8, stamp_alpha: u8, opacity: u8) -> nat {
    round_div((current * (65025 - stamp_alpha * opacity)) as nat, 65025)
}

/// `new * alpha + existing * (1 - alpha)` on fractions of 255, rounded to a byte.
pub open spec fn merge_channel_value(existing: u8, new: u8, alpha: u8) -> nat {
    round_div((new * alpha + existing * (255 - alpha)) as nat, 255)
}

/// Painting never darkens a channel, and the result is a byte.
pub proof fn lemma_paint_channel_bounds(current: u8, new: u8)
    ensures
        current <= paint_channel_value(current, new) <= 255,
        new <= paint_channel_value(current, new),
{
    let c = current as nat;
    let n = new as nat;
    assert(c * n <= 255 * c && c * n <= 255 * n && 255 * c + 255 * n - c * n <= 65025)
        by (nonlinear_arith)
        requires
            c <= 255,
            n <= 255,
    ;
    let x = (255 * (c + n) - c * n) as nat;
    lemma_round_div_monotonic(x, 65025, 255);
    lemma_round_div_exact(255, 255);
    lemma_round_div_monotonic(255 * c, x, 255);
    lemma_round_div_exact(c, 255);
    lemma_round_div_monotonic(255 * n, x, 255);
    lemma_round_div_exact(n, 255);
}

/// Painting full strength over any channel gives full strength, so that
/// painting opaque white a second time changes nothing.
pub proof fn lemma_paint_full_strength(current: u8)
    ensures
        paint_channel_value(current, 255) == 255,
        paint_channel_value(paint_channel_value(current, 255) as u8, 255) == paint_channel_value(
            current,
            255,
        ),
{
    lemma_paint_channel_bounds(current, 255);
    lemma_paint_channel_bounds(255, 255);
}

/// Erasing never raises the alpha.
pub proof fn lemma_erase_alpha_bound(current: u8, stamp_alpha: u8, opacity: u8)
    ensures
        erase_alpha_value(current, stamp_alpha, opacity) <= current,
{
    let c = current as nat;
    let a = stamp_alpha as nat;
    let o = opacity as nat;
    assert(a * o <= 65025 && 0 <= c * (65025 - a * o) <= c * 65025) by (nonlinear_arith)
        requires
            a <= 255,
            o <= 255,
            c <= 255,
    ;
    lemma_round_div_monotonic((c * (65025 - a * o)) as nat, c * 65025, 65025);
    lemma_round_div_exact(c, 65025);
}

/// A layer pixel of alpha zero leaves the frame's channel as it is.
pub proof fn lemma_merge_transparent(existing: u8, new: u8)
    ensures
        merge_channel_value(existing, new, 0) == existing,
        paint_channel_value(existing, 0) == existing,
{
    assert(new * 0 + existing * (255 - 0) == existing * 255) by (nonlinear_arith);
    assert(255 * (existing + 0) - existing * 0 == existing * 255) by (nonlinear_arith);
    lemma_round_div_exact(existing as nat, 255);
}

/// Paints one channel of a stamp pixel over one channel of the layer.
pub fn paint_channel(current: u8, new: u8) -> (result: u8)
    ensures
        result == paint_channel_value(current, new),
        result >= current,
        result >= new,
{
    let c: u128 = current as u128;
    let n: u128 = new as u128;
    assert(c * n <= 255 * c && c * n <= 255 * n && 255 * c + 255 * n - c * n <= 65025)
        by (nonlinear_arith)
        requires
            c <= 255,
            n <= 255,
    ;
    let x: u128 = 255 * (c + n) - c * n;
    let q: u128 = div_round(x, 255);
    proof {
        lemma_paint_channel_bounds(current, new);
    }
    q as u8
}

/// The alpha that is left of `current` under an eraser pixel of weight
/// `stamp_alpha`, held by a brush of the given opacity.
pub fn erase_alpha(current: u8, stamp_alpha: u8, opacity: u8) -> (result: u8)
    ensures
        result == erase_alpha_value(current, stamp_alpha, opacity),
        result <= current,
{
    let c: u128 = current as u128;
    let a: u128 = stamp_alpha as u128;
    let o: u128 = opacity as u128;
    assert(a * o <= 65025 && c * (65025 - a * o) <= c * 65025) by (nonlinear_arith)
        requires
            a <= 255,
            o <= 255,
            c <= 255,
    ;
    let x: u128 = c * (65025 - a * o);
    let q: u128 = div_round(x, 65025);
    proof {
        lemma_erase_alpha_bound(current, stamp_alpha, opacity);
    }
    q as u8
}

/// Lays one colour channel of a layer pixel of the given alpha over the
/// channel that the frame holds.
pub fn merge_channel(existing: u8, new: u8, alpha: u8) -> (result: u8)
    ensures
        result == merge_channel_value(existing, new, alpha),
{
    let e: u128 = existing as u128;
    let n: u128 = new as u128;
    let a: u128 = alpha as u128;
    assert(n * a + e * (255 - a) <= 65025) by (nonlinear_arith)
        requires
            e <= 255,
            n <= 255,
            a <= 255,
    ;
    let x: u128 = n * a + e * (255 - a);
    let q: u128 = div_round(x, 255);
    proof {
        lemma_round_div_monotonic(x as nat, 65025, 255);
        lemma_round_div_exact(255, 255);
    }
    q as u8
}

} // verus!
