//! Strokes: a stamp laid along the line between two cursor positions.

use vstd::prelude::*;
use crate::blend::{
    erase_alpha, erase_alpha_value, lemma_erase_alpha_bound, lemma_paint_full_strength,
    paint_channel, paint_channel_value,
};
use crate::brush::{Brush, BrushError};
use crate::math::{
    div_round, int_sqrt, isqrt, lemma_int_sqrt_bounds, lemma_round_div_exact,
    lemma_round_div_monotonic, lemma_round_div_nearest, round_div,
};
use crate::stamp::{Pixel, PixelModel, Stamp};

verus! {

/// The number of bytes of a pixel buffer of the given size.
pub open spec fn buffer_len(width: u32, height: u32) -> nat {
    (width * height * 4) as nat
}

/// The buffer after one stamp pixel was blended in at `(px, py)`; a
/// position outside the buffer leaves it as it is. Painting blends all
/// four channels, erasing takes from the alpha alone.
pub open spec fn pixel_blended(
    buffer: Seq<u8>,
    width: u32,
    height: u32,
    px: int,
    py: int,
    pixel: PixelModel,
    is_eraser: bool,
    opacity: u8,
) -> Seq<u8> {
    if 0 <= px < width && 0 <= py < height {
        let i = (py * width + px) * 4;
        if is_eraser {
            buffer.update(i + 3, erase_alpha_value(buffer[i + 3], pixel.alpha, opacity) as u8)
        } else {
            buffer.update(i, paint_channel_value(buffer[i], pixel.red) as u8).update(
                i + 1,
                paint_channel_value(buffer[i + 1], pixel.green) as u8,
            ).update(i + 2, paint_channel_value(buffer[i + 2], pixel.blue) as u8).update(
                i + 3,
                paint_channel_value(buffer[i + 3], pixel.alpha) as u8,
            )
        }
    } else {
        buffer
    }
}

/// The buffer after the first `count` pixels of a stamp were blended in,
/// the stamp's origin at `(cx, cy)`.
pub open spec fn stamp_blended(
    buffer: Seq<u8>,
    width: u32,
    height: u32,
    cx: int,
    cy: int,
    stamp: Seq<PixelModel>,
    count: nat,
    is_eraser: bool,
    opacity: u8,
) -> Seq<u8>
    decreases count,
{
    if count == 0 {
        buffer
    } else {
        let pixel = stamp[count - 1];
        pixel_blended(
            stamp_blended(
                buffer,
                width,
                height,
                cx,
                cy,
                stamp,
                (count - 1) as nat,
                is_eraser,
                opacity,
            ),
            width,
            height,
            cx + pixel.x,
            cy + pixel.y,
            pixel,
            is_eraser,
            opacity,
        )
    }
}

/// The number of steps of a stroke over `(dx, dy)`: its length divided
/// by the gap between two stamps, `radius * spacing / 65536` pixels,
/// rounded to the nearest integer, and at least one.
pub open spec fn stroke_steps(dx: int, dy: int, radius: nat, spacing: nat) -> nat {
    let gap = (radius * spacing) as int;
    let doubled = int_sqrt(((4 * (dx * dx + dy * dy) * 0x1_0000_0000) / (gap * gap)) as nat);
    if doubled < 3 {
        1
    } else {
        (doubled + 1) / 2
    }
}

/// One coordinate of the stamp number `i` of `steps`: the point at
/// `i / steps` of the way, rounded to the nearest pixel, halves away from
/// the start.
pub open spec fn placement(from: int, to: int, i: nat, steps: nat) -> int {
    if to >= from {
        from + round_div(((to - from) * i) as nat, steps)
    } else {
        from - round_div(((from - to) * i) as nat, steps)
    }
}

/// The buffer after the first `count` stamps of a stroke were blended in.
pub open spec fn stroke_blended(
    buffer: Seq<u8>,
    width: u32,
    height: u32,
    from: (int, int),
    to: (int, int),
    steps: nat,
    count: nat,
    stamp: Seq<PixelModel>,
    is_eraser: bool,
    opacity: u8,
) -> Seq<u8>
    decreases count,
{
    if count == 0 {
        buffer
    } else {
        stamp_blended(
            stroke_blended(
                buffer,
                width,
                height,
                from,
                to,
                steps,
                (count - 1) as nat,
                stamp,
                is_eraser,
                opacity,
            ),
            width,
            height,
            placement(from.0, to.0, (count - 1) as nat, steps),
            placement(from.1, to.1, (count - 1) as nat, steps),
            stamp,
            stamp.len(),
            is_eraser,
            opacity,
        )
    }
}

/// Blends one stamp pixel into the buffer at `(px, py)`.
fn blend_pixel(
    pixel_buffer: &mut Vec<u8>,
    width: u32,
    height: u32,
    px: i64,
    py: i64,
    pixel: &Pixel,
    is_eraser: bool,
    opacity: u8,
)
    requires
        old(pixel_buffer).len() == buffer_len(width, height),
    ensures
        final(pixel_buffer)@ == pixel_blended(
            old(pixel_buffer)@,
            width,
            height,
            px as int,
            py as int,
            pixel@,
            is_eraser,
            opacity,
        ),
        final(pixel_buffer).len() == old(pixel_buffer).len(),
{
    if px >= 0 && px < width as i64 && py >= 0 && py < height as i64 {
        assert(py * width + px < width * height && (py * width + px) * 4 + 3 < width * height * 4
            && py * width >= 0) by (nonlinear_arith)
            requires
                0 <= px < width,
                0 <= py < height,
        ;
        let index: usize = ((py as u64 * width as u64 + px as u64) * 4) as usize;
        if is_eraser {
            let alpha: u8 = erase_alpha(pixel_buffer[index + 3], pixel.color[3], opacity);
            pixel_buffer.set(index + 3, alpha);
        } else {
            let red: u8 = paint_channel(pixel_buffer[index], pixel.color[0]);
            let green: u8 = paint_channel(pixel_buffer[index + 1], pixel.color[1]);
            let blue: u8 = paint_channel(pixel_buffer[index + 2], pixel.color[2]);
            let alpha: u8 = paint_channel(pixel_buffer[index + 3], pixel.color[3]);
            pixel_buffer.set(index, red);
            pixel_buffer.set(index + 1, green);
            pixel_buffer.set(index + 2, blue);
            pixel_buffer.set(index + 3, alpha);
        }
    }
}

/// Blends a stamp into the buffer, the stamp's origin at `(cx, cy)`.
/// Pixels that fall outside the buffer are left out. Painting lays the
/// stamp's colour and alpha over the buffer; erasing takes from the
/// buffer's alpha the stamp's alpha times `opacity`.
pub fn blend_stamp(
    pixel_buffer: &mut Vec<u8>,
    width: u32,
    height: u32,
    stamp: &Stamp,
    cx: i32,
    cy: i32,
    is_eraser: bool,
    opacity: u8,
)
    requires
        old(pixel_buffer).len() == buffer_len(width, height),
    ensures
        final(pixel_buffer)@ == stamp_blended(
            old(pixel_buffer)@,
            width,
            height,
            cx as int,
            cy as int,
            stamp@,
            stamp@.len(),
            is_eraser,
            opacity,
        ),
        final(pixel_buffer).len() == old(pixel_buffer).len(),
{
    let ghost start = pixel_buffer@;
    let mut k: usize = 0;
    while k < stamp.pixels.len()
        invariant
            0 <= k <= stamp.pixels.len(),
            stamp@.len() == stamp.pixels.len(),
            pixel_buffer.len() == buffer_len(width, height),
            pixel_buffer.len() == start.len(),
            pixel_buffer@ == stamp_blended(
                start,
                width,
                height,
                cx as int,
                cy as int,
                stamp@,
                k as nat,
                is_eraser,
                opacity,
            ),
        decreases stamp.pixels.len() - k,
    {
        let pixel = &stamp.pixels[k];
        assert(stamp@[k as int] == pixel@);
        let px: i64 = cx as i64 + pixel.x as i64;
        let py: i64 = cy as i64 + pixel.y as i64;
        blend_pixel(pixel_buffer, width, height, px, py, pixel, is_eraser, opacity);
        k += 1;
    }
}

/// `a * i / steps`, rounded, is at most `a` while `i` is at most `steps`.
pub proof fn lemma_placement_offset_bound(a: nat, i: nat, steps: nat)
    requires
        i <= steps,
        steps > 0,
    ensures
        round_div(a * i, steps) <= a,
{
    assert(a * i <= a * steps) by (nonlinear_arith)
        requires
            i <= steps,
    ;
    lemma_round_div_monotonic(a * i, a * steps, steps);
    lemma_round_div_exact(a, steps);
}

/// A stroke from a point to itself takes one step, and each of its
/// stamps lies on that point.
pub proof fn lemma_stationary_stroke(at: int, i: nat, radius: nat, spacing: nat)
    requires
        radius > 0,
        spacing > 0,
    ensures
        stroke_steps(0, 0, radius, spacing) == 1,
        placement(at, at, i, 1) == at,
{
    let gap = (radius * spacing) as int;
    assert(gap * gap > 0) by (nonlinear_arith)
        requires
            gap == radius * spacing,
            radius > 0,
            spacing > 0,
    ;
    assert(4 * (0 * 0 + 0 * 0) * 0x1_0000_0000 == 0) by (nonlinear_arith);
    assert(0int / (gap * gap) == 0) by (nonlinear_arith)
        requires
            gap * gap > 0,
    ;
    lemma_int_sqrt_bounds(0);
    assert((at - at) * i == 0) by (nonlinear_arith);
}

/// The number of steps is the length of the stroke divided by the gap
/// between two stamps, rounded to the nearest integer, unless that is
/// zero: with `len2` the square of 65536 times the length and `gap` the
/// 65536-fold of the gap, twice the quotient lies from `2 * steps - 1` up
/// to, but not at, `2 * steps + 1`; a short stroke has one step.
pub proof fn lemma_stroke_steps_nearest(dx: int, dy: int, radius: nat, spacing: nat)
    requires
        radius > 0,
        spacing > 0,
    ensures
        ({
            let steps = stroke_steps(dx, dy, radius, spacing);
            let gap = radius * spacing;
            let len2 = (dx * dx + dy * dy) * 0x1_0000_0000;
            &&& steps >= 1
            &&& 4 * len2 < (2 * steps + 1) * (2 * steps + 1) * (gap * gap)
            &&& steps > 1 ==> (2 * steps - 1) * (2 * steps - 1) * (gap * gap) <= 4 * len2
        }),
{
    let steps = stroke_steps(dx, dy, radius, spacing) as int;
    let gap = (radius * spacing) as int;
    let square = gap * gap;
    assert(square > 0) by (nonlinear_arith)
        requires
            square == gap * gap,
            gap == radius * spacing,
            radius > 0,
            spacing > 0,
    ;
    assert(dx * dx >= 0 && dy * dy >= 0) by (nonlinear_arith);
    let total = 4 * (dx * dx + dy * dy) * 0x1_0000_0000;
    assert(total == 4 * ((dx * dx + dy * dy) * 0x1_0000_0000));
    let quotient = total / square;
    vstd::arithmetic::div_mod::lemma_fundamental_div_mod(total, square);
    vstd::arithmetic::div_mod::lemma_div_pos_is_pos(total, square);
    let doubled = int_sqrt(quotient as nat) as int;
    lemma_int_sqrt_bounds(quotient as nat);
    assert(square * quotient <= total < square * (quotient + 1)) by (nonlinear_arith)
        requires
            total == square * quotient + total % square,
            0 <= total % square < square,
    ;
    let upper = 2 * steps + 1;
    let lower = 2 * steps - 1;
    assert(doubled + 1 <= upper);
    assert((doubled + 1) * (doubled + 1) <= upper * upper) by (nonlinear_arith)
        requires
            0 <= doubled + 1 <= upper,
    ;
    assert(square * (quotient + 1) <= upper * upper * square) by (nonlinear_arith)
        requires
            quotient + 1 <= upper * upper,
            square > 0,
    ;
    if steps > 1 {
        assert(lower <= doubled);
        assert(lower * lower <= doubled * doubled) by (nonlinear_arith)
            requires
                0 <= lower <= doubled,
        ;
        assert(lower * lower * square <= square * quotient) by (nonlinear_arith)
            requires
                lower * lower <= quotient,
                square > 0,
        ;
    }
}

/// The first stamp of a stroke lies on its start and the last on its end.
pub proof fn lemma_stroke_ends(from: int, to: int, steps: nat)
    requires
        steps > 0,
    ensures
        placement(from, to, 0, steps) == from,
        placement(from, to, steps, steps) == to,
{
    if to >= from {
        let span = (to - from) as nat;
        assert(span * 0 == 0 * steps) by (nonlinear_arith);
        lemma_round_div_exact(0, steps);
        lemma_round_div_exact(span, steps);
    } else {
        let span = (from - to) as nat;
        assert(span * 0 == 0 * steps) by (nonlinear_arith);
        lemma_round_div_exact(0, steps);
        lemma_round_div_exact(span, steps);
    }
}

/// The stamps of a stroke are evenly spaced: stamp number `i` lies within
/// half a pixel of the point at `i / steps` of the way from start to end.
pub proof fn lemma_placement_even(from: int, to: int, i: nat, steps: nat)
    requires
        steps > 0,
    ensures
        -steps <= 2 * steps * (placement(from, to, i, steps) - from) - 2 * ((to - from) * i)
            <= steps,
{
    if to >= from {
        let a = ((to - from) * i) as nat;
        assert((to - from) * i >= 0) by (nonlinear_arith)
            requires
                to - from >= 0,
                i >= 0,
        ;
        lemma_round_div_nearest(a, steps);
        let q = round_div(a, steps) as int;
        assert(placement(from, to, i, steps) - from == q);
    } else {
        let a = ((from - to) * i) as nat;
        assert((from - to) * i >= 0) by (nonlinear_arith)
            requires
                from - to >= 0,
                i >= 0,
        ;
        assert((to - from) * i == -((from - to) * i)) by (nonlinear_arith);
        lemma_round_div_nearest(a, steps);
        let q = round_div(a, steps) as int;
        assert(placement(from, to, i, steps) - from == -q);
        assert(2 * steps * (-q) == -(2 * steps * q)) by (nonlinear_arith);
    }
}

/// No stamp of a stroke lies outside the span between its two ends.
pub proof fn lemma_placement_between(from: int, to: int, i: nat, steps: nat)
    requires
        steps > 0,
        i <= steps,
    ensures
        from <= to ==> from <= placement(from, to, i, steps) <= to,
        to <= from ==> to <= placement(from, to, i, steps) <= from,
{
    if to >= from {
        lemma_placement_offset_bound((to - from) as nat, i, steps);
    } else {
        lemma_placement_offset_bound((from - to) as nat, i, steps);
    }
}

/// `after` has the colours of `before`, and no alpha above it.
pub open spec fn erase_only(before: Seq<u8>, after: Seq<u8>) -> bool {
    &&& after.len() == before.len()
    &&& forall|i: int| 0 <= i < before.len() ==> after[i] <= before[i]
    &&& forall|i: int| 0 <= i < before.len() && i % 4 != 3 ==> after[i] == before[i]
}

/// Erasing one stamp pixel changes no colour channel and raises no alpha.
pub proof fn lemma_erase_pixel(
    buffer: Seq<u8>,
    width: u32,
    height: u32,
    px: int,
    py: int,
    pixel: PixelModel,
    opacity: u8,
)
    requires
        buffer.len() == buffer_len(width, height),
    ensures
        erase_only(buffer, pixel_blended(buffer, width, height, px, py, pixel, true, opacity)),
{
    if 0 <= px < width && 0 <= py < height {
        assert(0 <= (py * width + px) * 4 && (py * width + px) * 4 + 3 < width * height * 4)
            by (nonlinear_arith)
            requires
                0 <= px < width,
                0 <= py < height,
        ;
        let i = (py * width + px) * 4;
        lemma_erase_alpha_bound(buffer[i + 3], pixel.alpha, opacity);
    }
}

/// Erasing with a stamp changes no colour channel and raises no alpha.
pub proof fn lemma_erase_stamp(
    buffer: Seq<u8>,
    width: u32,
    height: u32,
    cx: int,
    cy: int,
    stamp: Seq<PixelModel>,
    count: nat,
    opacity: u8,
)
    requires
        buffer.len() == buffer_len(width, height),
        count <= stamp.len(),
    ensures
        erase_only(
            buffer,
            stamp_blended(buffer, width, height, cx, cy, stamp, count, true, opacity),
        ),
    decreases count,
{
    if count > 0 {
        lemma_erase_stamp(buffer, width, height, cx, cy, stamp, (count - 1) as nat, opacity);
        let pixel = stamp[count - 1];
        lemma_erase_pixel(
            stamp_blended(
                buffer,
                width,
                height,
                cx,
                cy,
                stamp,
                (count - 1) as nat,
                true,
                opacity,
            ),
            width,
            height,
            cx + pixel.x,
            cy + pixel.y,
            pixel,
            opacity,
        );
    }
}

/// Erasing along a stroke, however many stamps it lays and however often
/// they pass over a pixel, changes no colour channel and raises no alpha.
pub proof fn lemma_erase_stroke(
    buffer: Seq<u8>,
    width: u32,
    height: u32,
    from: (int, int),
    to: (int, int),
    steps: nat,
    count: nat,
    stamp: Seq<PixelModel>,
    opacity: u8,
)
    requires
        buffer.len() == buffer_len(width, height),
    ensures
        erase_only(
            buffer,
            stroke_blended(buffer, width, height, from, to, steps, count, stamp, true, opacity),
        ),
    decreases count,
{
    if count > 0 {
        lemma_erase_stroke(
            buffer,
            width,
            height,
            from,
            to,
            steps,
            (count - 1) as nat,
            stamp,
            opacity,
        );
        lemma_erase_stamp(
            stroke_blended(
                buffer,
                width,
                height,
                from,
                to,
                steps,
                (count - 1) as nat,
                stamp,
                true,
                opacity,
            ),
            width,
            height,
            placement(from.0, to.0, (count - 1) as nat, steps),
            placement(from.1, to.1, (count - 1) as nat, steps),
            stamp,
            stamp.len(),
            opacity,
        );
    }
}

/// Painting a pixel of opaque white a second time changes nothing.
pub proof fn lemma_paint_opaque_white_twice(
    buffer: Seq<u8>,
    width: u32,
    height: u32,
    px: int,
    py: int,
    pixel: PixelModel,
    opacity: u8,
)
    requires
        buffer.len() == buffer_len(width, height),
        pixel.red == 255 && pixel.green == 255 && pixel.blue == 255 && pixel.alpha == 255,
    ensures
        pixel_blended(
            pixel_blended(buffer, width, height, px, py, pixel, false, opacity),
            width,
            height,
            px,
            py,
            pixel,
            false,
            opacity,
        ) == pixel_blended(buffer, width, height, px, py, pixel, false, opacity),
{
    let once = pixel_blended(buffer, width, height, px, py, pixel, false, opacity);
    let twice = pixel_blended(once, width, height, px, py, pixel, false, opacity);
    if 0 <= px < width && 0 <= py < height {
        assert(0 <= (py * width + px) * 4 && (py * width + px) * 4 + 3 < width * height * 4)
            by (nonlinear_arith)
            requires
                0 <= px < width,
                0 <= py < height,
        ;
        let i = (py * width + px) * 4;
        lemma_paint_full_strength(buffer[i]);
        lemma_paint_full_strength(buffer[i + 1]);
        lemma_paint_full_strength(buffer[i + 2]);
        lemma_paint_full_strength(buffer[i + 3]);
        lemma_paint_full_strength(255);
        assert(twice =~= once);
    }
}

/// One coordinate of the stamp number `i` of `steps`.
fn place(from: i32, to: i32, i: u64, steps: u64) -> (at: i32)
    requires
        0 < steps,
        i <= steps,
    ensures
        at == placement(from as int, to as int, i as nat, steps as nat),
{
    if to >= from {
        let span: u128 = (to as i64 - from as i64) as u128;
        proof {
            lemma_placement_offset_bound(span as nat, i as nat, steps as nat);
            assert(span * i <= 0xFFFF_FFFF * 0xFFFF_FFFF_FFFF_FFFF) by (nonlinear_arith)
                requires
                    0 <= span <= 0xFFFF_FFFF,
                    0 <= i <= 0xFFFF_FFFF_FFFF_FFFF,
            ;
        }
        let offset: u128 = div_round(span * i as u128, steps as u128);
        (from as i64 + offset as i64) as i32
    } else {
        let span: u128 = (from as i64 - to as i64) as u128;
        proof {
            lemma_placement_offset_bound(span as nat, i as nat, steps as nat);
            assert(span * i <= 0xFFFF_FFFF * 0xFFFF_FFFF_FFFF_FFFF) by (nonlinear_arith)
                requires
                    0 <= span <= 0xFFFF_FFFF,
                    0 <= i <= 0xFFFF_FFFF_FFFF_FFFF,
            ;
        }
        let offset: u128 = div_round(span * i as u128, steps as u128);
        (from as i64 - offset as i64) as i32
    }
}

/// The number of steps of a stroke from `from` to `to`.
pub fn count_steps(from: (i32, i32), to: (i32, i32), radius: u32, spacing: u32) -> (steps: u64)
    requires
        radius > 0,
        spacing > 0,
    ensures
        steps == stroke_steps(to.0 - from.0, to.1 - from.1, radius as nat, spacing as nat),
        steps >= 1,
{
    let dx: i64 = to.0 as i64 - from.0 as i64;
    let dy: i64 = to.1 as i64 - from.1 as i64;
    assert(0 <= dx * dx <= 0xFFFF_FFFF * 0xFFFF_FFFF && 0 <= dy * dy <= 0xFFFF_FFFF
        * 0xFFFF_FFFF) by (nonlinear_arith)
        requires
            -0xFFFF_FFFF <= dx <= 0xFFFF_FFFF,
            -0xFFFF_FFFF <= dy <= 0xFFFF_FFFF,
    ;
    let d2: u128 = (dx as i128 * dx as i128 + dy as i128 * dy as i128) as u128;
    assert(0 < radius * spacing <= 0xFFFF_FFFF * 0xFFFF_FFFF) by (nonlinear_arith)
        requires
            0 < radius <= 0xFFFF_FFFF,
            0 < spacing <= 0xFFFF_FFFF,
    ;
    let gap: u128 = radius as u128 * spacing as u128;
    assert(0 < gap * gap <= 0xFFFF_FFFF * 0xFFFF_FFFF * (0xFFFF_FFFF * 0xFFFF_FFFF))
        by (nonlinear_arith)
        requires
            0 < gap <= 0xFFFF_FFFF * 0xFFFF_FFFF,
    ;
    let doubled: u128 = isqrt(4 * d2 * 0x1_0000_0000 / (gap * gap));
    if doubled < 3 {
        1
    } else {
        ((doubled + 1) / 2) as u64
    }
}

/// Paints a brush stroke on the pixel buffer
pub struct PaintOperation<'a> {
    /// Pixel buffer to paint on. This should be a 1D (flat) array of RGBA
    /// values, row by row: `width * height * 4` bytes.
    pub pixel_buffer: &'a mut Vec<u8>,
    pub pixel_buffer_width: u32,
    pub pixel_buffer_height: u32,
    pub brush: &'a Brush,
    pub color: [u8; 3],
    /// In whole pixels of the buffer.
    pub cursor_position: (i32, i32),
    pub last_cursor_position: (i32, i32),
    pub is_eraser: bool,
}

impl PaintOperation<'_> {
    /// The number of steps from the last cursor position to this one.
    pub open spec fn steps(&self) -> nat {
        stroke_steps(
            self.cursor_position.0 - self.last_cursor_position.0,
            self.cursor_position.1 - self.last_cursor_position.1,
            self.brush.spec_radius() as nat,
            self.brush.spec_spacing() as nat,
        )
    }

    /// The given buffer after the stroke.
    pub open spec fn stroke(&self, buffer: Seq<u8>) -> Seq<u8> {
        stroke_blended(
            buffer,
            self.pixel_buffer_width,
            self.pixel_buffer_height,
            (self.last_cursor_position.0 as int, self.last_cursor_position.1 as int),
            (self.cursor_position.0 as int, self.cursor_position.1 as int),
            self.steps(),
            self.steps() + 1,
            self.brush.stamp_model(self.color@),
            self.is_eraser,
            self.brush.spec_opacity(),
        )
    }

    /// Lays the brush's stamp along the line from the last cursor position
    /// to this one, at `steps() + 1` places from the first to the last.
    /// A brush that cannot draw is refused and leaves the buffer as it is.
    pub fn process(self) -> (result: Result<(), BrushError>)
        requires
            old(self.pixel_buffer).len() == buffer_len(
                self.pixel_buffer_width,
                self.pixel_buffer_height,
            ),
        ensures
            result == self.brush.validate_model(),
            result is Ok ==> final(self.pixel_buffer)@ == self.stroke(old(self.pixel_buffer)@),
            result is Err ==> final(self.pixel_buffer)@ == old(self.pixel_buffer)@,
            final(self.pixel_buffer).len() == old(self.pixel_buffer).len(),
    {
        let brush = self.brush;
        let width: u32 = self.pixel_buffer_width;
        let height: u32 = self.pixel_buffer_height;
        let is_eraser = self.is_eraser;
        let from = self.last_cursor_position;
        let to = self.cursor_position;
        let color = self.color;
        let pixel_buffer = self.pixel_buffer;
        match brush.validate() {
            Err(e) => {
                return Err(e);
            },
            Ok(_) => {},
        }
        let steps: u64 = count_steps(from, to, brush.radius(), brush.spacing());
        let stamp = brush.compute_stamp(color);
        let opacity: u8 = brush.opacity();
        let ghost start = pixel_buffer@;
        let mut i: u64 = 0;
        loop
            invariant_except_break
                0 <= i <= steps,
                steps >= 1,
                pixel_buffer.len() == start.len(),
                pixel_buffer.len() == buffer_len(width, height),
                pixel_buffer@ == stroke_blended(
                    start,
                    width,
                    height,
                    (from.0 as int, from.1 as int),
                    (to.0 as int, to.1 as int),
                    steps as nat,
                    i as nat,
                    stamp@,
                    is_eraser,
                    opacity,
                ),
            ensures
                pixel_buffer.len() == start.len(),
                pixel_buffer@ == stroke_blended(
                    start,
                    width,
                    height,
                    (from.0 as int, from.1 as int),
                    (to.0 as int, to.1 as int),
                    steps as nat,
                    (steps + 1) as nat,
                    stamp@,
                    is_eraser,
                    opacity,
                ),
            decreases steps - i,
        {
            let x: i32 = place(from.0, to.0, i, steps);
            let y: i32 = place(from.1, to.1, i, steps);
            blend_stamp(pixel_buffer, width, height, &stamp, x, y, is_eraser, opacity);
            if i == steps {
                break;
            }
            i += 1;
        }
        Ok(())
    }
}

} // verus!
