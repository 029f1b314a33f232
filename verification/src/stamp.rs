//! Brush stamps: the weighted pixel mask of one dab of a brush.

use vstd::prelude::*;
use crate::math::{
    int_sqrt, round_div, isqrt, div_round, lemma_int_sqrt_bounds, lemma_int_sqrt_monotonic,
    lemma_round_div_monotonic, lemma_round_div_exact,
};

verus! {

/// The largest radius a brush may have, in 1/256 of a pixel.
pub const MAX_RADIUS: u32 = 0xFF_FFFF;

/// A pixel is a single point in a pixel buffer with an RGBA color value.
pub struct Pixel {
    pub x: i32,
    pub y: i32,
    pub color: [u8; 4],
}

/// A stamp is a collection of pixels that represent a brush shape.
pub struct Stamp {
    pub pixels: Vec<Pixel>,
}

/// What a pixel holds: its offset from the stamp's origin and its channels.
pub struct PixelModel {
    pub x: int,
    pub y: int,
    pub red: u8,
    pub green: u8,
    pub blue: u8,
    pub alpha: u8,
}

impl View for Pixel {
    type V = PixelModel;

    open spec fn view(&self) -> PixelModel {
        PixelModel {
            x: self.x as int,
            y: self.y as int,
            red: self.color@[0],
            green: self.color@[1],
            blue: self.color@[2],
            alpha: self.color@[3],
        }
    }
}

/// The models of a sequence of pixels, in the same order.
pub open spec fn pixel_models(pixels: Seq<Pixel>) -> Seq<PixelModel> {
    pixels.map_values(|p: Pixel| p@)
}

impl View for Stamp {
    type V = Seq<PixelModel>;

    open spec fn view(&self) -> Seq<PixelModel> {
        pixel_models(self.pixels@)
    }
}

/// The offset `(x, y)` lies no farther from the origin than `radius`.
pub open spec fn within_radius(x: int, y: int, radius: nat) -> bool {
    (x * x + y * y) * 65536 <= radius * radius
}

/// The distance of the offset `(x, y)` from the origin in 1/256 of a pixel,
/// rounded down.
pub open spec fn offset_distance(x: int, y: int) -> nat {
    int_sqrt(((x * x + y * y) * 65536) as nat)
}

/// `den³ * (1 - smoothstep(num / den))`, where `smoothstep(u) = u² (3 - 2u)`.
pub open spec fn falloff_rest(num: nat, den: nat) -> int {
    den * den * den - num * num * (3 * den - 2 * num)
}

/// The alpha byte of a soft circle at distance `dist` from its centre:
/// the opacity inside the hard core, and from there to the rim the opacity
/// times `1 - smoothstep(u)`, where `u` runs from 0 at the core to 1 at the
/// rim. A hardness of 255 leaves no band to fall off in.
pub open spec fn falloff_alpha(dist: nat, radius: nat, hardness: u8, opacity: u8) -> nat {
    if dist * 255 < hardness * radius || hardness == 255 {
        opacity as nat
    } else {
        let den = radius * (255 - hardness);
        let num = dist * 255 - hardness * radius;
        round_div((opacity * falloff_rest(num as nat, den as nat)) as nat, (den * den * den) as nat)
    }
}

/// The alpha byte of a soft circle at the offset `(x, y)`.
pub open spec fn pixel_alpha(x: int, y: int, radius: nat, hardness: u8, opacity: u8) -> nat {
    falloff_alpha(offset_distance(x, y), radius, hardness, opacity)
}

/// The stamp of a soft circle holds a pixel at the offset `(x, y)`.
pub open spec fn stamp_covers(x: int, y: int, radius: nat, hardness: u8, opacity: u8) -> bool {
    within_radius(x, y, radius) && pixel_alpha(x, y, radius, hardness, opacity) > 0
}

/// The number of whole pixels that the radius reaches, rounded up.
pub open spec fn stamp_extent(radius: nat) -> int {
    (radius as int + 255) / 256
}

/// The pixel that the stamp of a soft circle holds at a covered offset.
pub open spec fn stamp_pixel(
    x: int,
    y: int,
    radius: nat,
    hardness: u8,
    opacity: u8,
    color: Seq<u8>,
) -> PixelModel {
    PixelModel {
        x,
        y,
        red: color[0],
        green: color[1],
        blue: color[2],
        alpha: pixel_alpha(x, y, radius, hardness, opacity) as u8,
    }
}

/// The pixels of the first `cols` offsets of the row `y`, from the left.
pub open spec fn stamp_row(
    y: int,
    cols: nat,
    radius: nat,
    hardness: u8,
    opacity: u8,
    color: Seq<u8>,
) -> Seq<PixelModel>
    decreases cols,
{
    if cols == 0 {
        Seq::empty()
    } else {
        let left = stamp_row(y, (cols - 1) as nat, radius, hardness, opacity, color);
        let x = cols - 1 - stamp_extent(radius);
        if stamp_covers(x, y, radius, hardness, opacity) {
            left.push(stamp_pixel(x, y, radius, hardness, opacity, color))
        } else {
            left
        }
    }
}

/// The pixels of the first `rows` rows of the bounding square, from the top.
pub open spec fn stamp_rows(
    rows: nat,
    radius: nat,
    hardness: u8,
    opacity: u8,
    color: Seq<u8>,
) -> Seq<PixelModel>
    decreases rows,
{
    if rows == 0 {
        Seq::empty()
    } else {
        stamp_rows((rows - 1) as nat, radius, hardness, opacity, color) + stamp_row(
            rows - 1 - stamp_extent(radius),
            (2 * stamp_extent(radius) + 1) as nat,
            radius,
            hardness,
            opacity,
            color,
        )
    }
}

/// The stamp of a soft circle: the covered offsets of the bounding square
/// row by row, each with its alpha and the given colour.
pub open spec fn soft_circle_stamp(radius: nat, hardness: u8, opacity: u8, color: Seq<u8>) -> Seq<
    PixelModel,
> {
    stamp_rows((2 * stamp_extent(radius) + 1) as nat, radius, hardness, opacity, color)
}

/// The falloff never leaves the range from nothing to everything, and it
/// shrinks as the position in the band grows.
pub proof fn lemma_falloff_rest_monotonic(a: nat, b: nat, den: nat)
    requires
        a <= b <= den,
    ensures
        0 <= falloff_rest(b, den) <= falloff_rest(a, den) <= den * den * den,
{
    lemma_falloff_rest_decreases(0, a, den);
    lemma_falloff_rest_decreases(a, b, den);
    lemma_falloff_rest_decreases(b, den, den);
    assert(falloff_rest(0, den) == den * den * den) by (nonlinear_arith);
    assert(falloff_rest(den, den) == 0) by (nonlinear_arith);
}

/// The falloff never grows with the position in the band, and where the
/// position grows it shrinks.
pub proof fn lemma_falloff_rest_decreases(a: nat, b: nat, den: nat)
    requires
        a <= b <= den,
    ensures
        falloff_rest(b, den) <= falloff_rest(a, den),
        a < b ==> falloff_rest(b, den) < falloff_rest(a, den),
{
    let q = 3 * den - 2 * b;
    let aa = a * a;
    let bb = b * b;
    assert(aa * (3 * den - 2 * a) == aa * q + 2 * aa * (b - a)) by (nonlinear_arith)
        requires
            q == 3 * den - 2 * b,
    ;
    assert(bb - aa == (b - a) * (b + a)) by (nonlinear_arith)
        requires
            aa == a * a,
            bb == b * b,
    ;
    assert(bb * q - aa * q == (bb - aa) * q) by (nonlinear_arith);
    assert(((b - a) * (b + a)) * q - 2 * aa * (b - a) == (b - a) * ((b + a) * q - 2 * aa))
        by (nonlinear_arith);
    assert((b + a) * q >= 2 * aa) by (nonlinear_arith)
        requires
            q >= b,
            b >= a,
            a >= 0,
            aa == a * a,
    ;
    assert((b - a) * ((b + a) * q - 2 * aa) >= 0) by (nonlinear_arith)
        requires
            b - a >= 0,
            (b + a) * q - 2 * aa >= 0,
    ;
    if a < b {
        assert((b + a) * q > 2 * aa) by (nonlinear_arith)
            requires
                q >= b,
                b > a,
                a >= 0,
                aa == a * a,
        ;
        assert((b - a) * ((b + a) * q - 2 * aa) > 0) by (nonlinear_arith)
            requires
                b - a > 0,
                (b + a) * q - 2 * aa > 0,
        ;
    }
}

/// At hardness zero the falloff, before it is scaled by the opacity and
/// rounded to a byte, is strictly smaller at a greater distance.
pub proof fn lemma_soft_falloff_strict(near: nat, far: nat, radius: nat)
    requires
        near < far <= radius,
    ensures
        falloff_rest(far * 255, radius * 255) < falloff_rest(near * 255, radius * 255),
{
    lemma_falloff_rest_decreases(near * 255, far * 255, radius * 255);
}

/// No pixel of a soft circle is more opaque than the brush.
pub proof fn lemma_falloff_alpha_bound(dist: nat, radius: nat, hardness: u8, opacity: u8)
    requires
        dist <= radius,
        radius > 0,
    ensures
        falloff_alpha(dist, radius, hardness, opacity) <= opacity,
{
    if !(dist * 255 < hardness * radius || hardness == 255) {
        let den = (radius * (255 - hardness)) as nat;
        let num = (dist * 255 - hardness * radius) as nat;
        lemma_band_position(dist, radius, hardness);
        lemma_falloff_rest_monotonic(num, num, den);
        let cube = (den * den * den) as nat;
        assert(cube > 0) by (nonlinear_arith)
            requires
                den > 0,
                cube == den * den * den,
        ;
        assert(opacity * falloff_rest(num, den) <= opacity * cube) by (nonlinear_arith)
            requires
                0 <= falloff_rest(num, den) <= cube,
        ;
        lemma_round_div_monotonic(
            (opacity * falloff_rest(num, den)) as nat,
            (opacity * cube) as nat,
            cube,
        );
        lemma_round_div_exact(opacity as nat, cube);
    }
}

/// In the falloff band the position `num / den` lies between 0 and 1.
proof fn lemma_band_position(dist: nat, radius: nat, hardness: u8)
    requires
        dist <= radius,
        radius > 0,
        hardness < 255,
        dist * 255 >= hardness * radius,
    ensures
        0 <= dist * 255 - hardness * radius <= radius * (255 - hardness),
        radius * (255 - hardness) > 0,
{
    assert(radius * (255 - hardness) == radius * 255 - hardness * radius) by (nonlinear_arith);
    assert(radius * (255 - hardness) > 0) by (nonlinear_arith)
        requires
            radius > 0,
            255 - hardness > 0,
    ;
}

/// Farther from the centre a soft circle is never more opaque.
pub proof fn lemma_falloff_alpha_monotonic(
    near: nat,
    far: nat,
    radius: nat,
    hardness: u8,
    opacity: u8,
)
    requires
        near <= far <= radius,
        radius > 0,
    ensures
        falloff_alpha(far, radius, hardness, opacity) <= falloff_alpha(
            near,
            radius,
            hardness,
            opacity,
        ),
{
    lemma_falloff_alpha_bound(far, radius, hardness, opacity);
    if !(near * 255 < hardness * radius || hardness == 255) {
        let den = (radius * (255 - hardness)) as nat;
        let a = (near * 255 - hardness * radius) as nat;
        let b = (far * 255 - hardness * radius) as nat;
        lemma_band_position(near, radius, hardness);
        lemma_band_position(far, radius, hardness);
        lemma_falloff_rest_monotonic(a, b, den);
        let cube = (den * den * den) as nat;
        assert(cube > 0) by (nonlinear_arith)
            requires
                den > 0,
                cube == den * den * den,
        ;
        assert(opacity * falloff_rest(b, den) <= opacity * falloff_rest(a, den))
            by (nonlinear_arith)
            requires
                falloff_rest(b, den) <= falloff_rest(a, den),
        ;
        assert(0 <= opacity * falloff_rest(b, den)) by (nonlinear_arith)
            requires
                0 <= falloff_rest(b, den),
        ;
        lemma_round_div_monotonic(
            (opacity * falloff_rest(b, den)) as nat,
            (opacity * falloff_rest(a, den)) as nat,
            cube,
        );
    }
}

/// An offset within the radius has a distance of at most the radius.
pub proof fn lemma_offset_distance_bound(x: int, y: int, radius: nat)
    requires
        within_radius(x, y, radius),
    ensures
        offset_distance(x, y) <= radius,
{
    assert(x * x >= 0 && y * y >= 0) by (nonlinear_arith);
    let n = ((x * x + y * y) * 65536) as nat;
    let d = int_sqrt(n);
    lemma_int_sqrt_bounds(n);
    if d > radius {
        assert(d * d > radius * radius) by (nonlinear_arith)
            requires
                d > radius,
        ;
    }
}

/// At full hardness every offset carries the opacity of the brush: there
/// is no band to fall off in.
pub proof fn lemma_full_hardness_alpha(x: int, y: int, radius: nat, opacity: u8)
    ensures
        pixel_alpha(x, y, radius, 255, opacity) == opacity,
{
}

/// Of two offsets within the radius, the one farther from the centre is
/// never the more opaque, whatever the hardness.
pub proof fn lemma_alpha_falls_with_distance(
    x1: int,
    y1: int,
    x2: int,
    y2: int,
    radius: nat,
    hardness: u8,
    opacity: u8,
)
    requires
        radius > 0,
        x1 * x1 + y1 * y1 <= x2 * x2 + y2 * y2,
        within_radius(x2, y2, radius),
    ensures
        pixel_alpha(x2, y2, radius, hardness, opacity) <= pixel_alpha(
            x1,
            y1,
            radius,
            hardness,
            opacity,
        ),
{
    assert(x1 * x1 >= 0 && y1 * y1 >= 0) by (nonlinear_arith);
    lemma_offset_distance_bound(x2, y2, radius);
    lemma_int_sqrt_monotonic(
        ((x1 * x1 + y1 * y1) * 65536) as nat,
        ((x2 * x2 + y2 * y2) * 65536) as nat,
    );
    lemma_falloff_alpha_monotonic(
        offset_distance(x1, y1),
        offset_distance(x2, y2),
        radius,
        hardness,
        opacity,
    );
}

/// The stamp of a soft circle is the same under a swap of `x` and `y` and
/// under a change of sign of either: the mirrored offset is covered if
/// the offset is, and with the same alpha.
pub proof fn lemma_stamp_symmetric(x: int, y: int, radius: nat, hardness: u8, opacity: u8)
    ensures
        stamp_covers(y, x, radius, hardness, opacity) == stamp_covers(
            x,
            y,
            radius,
            hardness,
            opacity,
        ),
        stamp_covers(-x, y, radius, hardness, opacity) == stamp_covers(
            x,
            y,
            radius,
            hardness,
            opacity,
        ),
        stamp_covers(x, -y, radius, hardness, opacity) == stamp_covers(
            x,
            y,
            radius,
            hardness,
            opacity,
        ),
        pixel_alpha(y, x, radius, hardness, opacity) == pixel_alpha(
            x,
            y,
            radius,
            hardness,
            opacity,
        ),
        pixel_alpha(-x, y, radius, hardness, opacity) == pixel_alpha(
            x,
            y,
            radius,
            hardness,
            opacity,
        ),
        pixel_alpha(x, -y, radius, hardness, opacity) == pixel_alpha(
            x,
            y,
            radius,
            hardness,
            opacity,
        ),
{
    assert((-x) * (-x) == x * x) by (nonlinear_arith);
    assert((-y) * (-y) == y * y) by (nonlinear_arith);
    assert(y * y + x * x == x * x + y * y);
}

proof fn lemma_push_contains(s: Seq<PixelModel>, last: PixelModel, pixel: PixelModel)
    ensures
        s.push(last).contains(pixel) <==> (s.contains(pixel) || last == pixel),
{
    let t = s.push(last);
    if s.contains(pixel) {
        let i = choose|i: int| 0 <= i < s.len() && s[i] == pixel;
        assert(t[i] == pixel);
    }
    if last == pixel {
        assert(t[s.len() as int] == pixel);
    }
    if t.contains(pixel) {
        let i = choose|i: int| 0 <= i < t.len() && t[i] == pixel;
        if i < s.len() {
            assert(s[i] == pixel);
        }
    }
}

proof fn lemma_add_contains(s: Seq<PixelModel>, t: Seq<PixelModel>, pixel: PixelModel)
    ensures
        (s + t).contains(pixel) <==> (s.contains(pixel) || t.contains(pixel)),
{
    let u = s + t;
    if s.contains(pixel) {
        let i = choose|i: int| 0 <= i < s.len() && s[i] == pixel;
        assert(u[i] == pixel);
    }
    if t.contains(pixel) {
        let i = choose|i: int| 0 <= i < t.len() && t[i] == pixel;
        assert(u[s.len() + i] == pixel);
    }
    if u.contains(pixel) {
        let i = choose|i: int| 0 <= i < u.len() && u[i] == pixel;
        if i < s.len() {
            assert(s[i] == pixel);
        } else {
            assert(t[i - s.len()] == pixel);
        }
    }
}

/// An offset within the radius lies in the bounding square.
pub proof fn lemma_covered_in_square(x: int, y: int, radius: nat)
    requires
        within_radius(x, y, radius),
    ensures
        -stamp_extent(radius) <= x <= stamp_extent(radius),
        -stamp_extent(radius) <= y <= stamp_extent(radius),
{
    let extent = stamp_extent(radius);
    assert(256 * extent >= radius);
    assert(x * x >= 0 && y * y >= 0) by (nonlinear_arith);
    if x > extent || x < -extent {
        assert((256 * x) * (256 * x) > radius * radius) by (nonlinear_arith)
            requires
                256 * x > radius || 256 * x < -radius,
                radius >= 0,
        ;
        assert((256 * x) * (256 * x) == x * x * 65536) by (nonlinear_arith);
    }
    if y > extent || y < -extent {
        assert((256 * y) * (256 * y) > radius * radius) by (nonlinear_arith)
            requires
                256 * y > radius || 256 * y < -radius,
                radius >= 0,
        ;
        assert((256 * y) * (256 * y) == y * y * 65536) by (nonlinear_arith);
    }
}

proof fn lemma_stamp_row_contains(
    y: int,
    cols: nat,
    radius: nat,
    hardness: u8,
    opacity: u8,
    color: Seq<u8>,
    pixel: PixelModel,
)
    ensures
        stamp_row(y, cols, radius, hardness, opacity, color).contains(pixel) <==> (pixel.y == y
            && -stamp_extent(radius) <= pixel.x < cols - stamp_extent(radius) && stamp_covers(
            pixel.x,
            pixel.y,
            radius,
            hardness,
            opacity,
        ) && pixel == stamp_pixel(pixel.x, pixel.y, radius, hardness, opacity, color)),
    decreases cols,
{
    if cols == 0 {
        assert(stamp_row(y, cols, radius, hardness, opacity, color).len() == 0);
    } else {
        let left = stamp_row(y, (cols - 1) as nat, radius, hardness, opacity, color);
        let x = cols - 1 - stamp_extent(radius);
        lemma_stamp_row_contains(y, (cols - 1) as nat, radius, hardness, opacity, color, pixel);
        if stamp_covers(x, y, radius, hardness, opacity) {
            lemma_push_contains(
                left,
                stamp_pixel(x, y, radius, hardness, opacity, color),
                pixel,
            );
        }
    }
}

proof fn lemma_stamp_rows_contains(
    rows: nat,
    radius: nat,
    hardness: u8,
    opacity: u8,
    color: Seq<u8>,
    pixel: PixelModel,
)
    ensures
        stamp_rows(rows, radius, hardness, opacity, color).contains(pixel) <==> (-stamp_extent(
            radius,
        ) <= pixel.y < rows - stamp_extent(radius) && -stamp_extent(radius) <= pixel.x
            <= stamp_extent(radius) && stamp_covers(pixel.x, pixel.y, radius, hardness, opacity)
            && pixel == stamp_pixel(pixel.x, pixel.y, radius, hardness, opacity, color)),
    decreases rows,
{
    if rows == 0 {
        assert(stamp_rows(rows, radius, hardness, opacity, color).len() == 0);
    } else {
        let above = stamp_rows((rows - 1) as nat, radius, hardness, opacity, color);
        let y = rows - 1 - stamp_extent(radius);
        let cols = (2 * stamp_extent(radius) + 1) as nat;
        let row = stamp_row(y, cols, radius, hardness, opacity, color);
        lemma_stamp_rows_contains((rows - 1) as nat, radius, hardness, opacity, color, pixel);
        lemma_stamp_row_contains(y, cols, radius, hardness, opacity, color, pixel);
        lemma_add_contains(above, row, pixel);
    }
}

/// The stamp of a soft circle holds the pixels of the covered offsets and
/// no others: each offset within the radius whose alpha is above zero,
/// with that alpha and the colour.
pub proof fn lemma_stamp_contains(
    radius: nat,
    hardness: u8,
    opacity: u8,
    color: Seq<u8>,
    pixel: PixelModel,
)
    ensures
        soft_circle_stamp(radius, hardness, opacity, color).contains(pixel) <==> (stamp_covers(
            pixel.x,
            pixel.y,
            radius,
            hardness,
            opacity,
        ) && pixel == stamp_pixel(pixel.x, pixel.y, radius, hardness, opacity, color)),
{
    lemma_stamp_rows_contains(
        (2 * stamp_extent(radius) + 1) as nat,
        radius,
        hardness,
        opacity,
        color,
        pixel,
    );
    if within_radius(pixel.x, pixel.y, radius) {
        lemma_covered_in_square(pixel.x, pixel.y, radius);
    }
}

/// With a pixel the stamp of a soft circle holds its mirror images: the
/// same colour and alpha at the offset with `x` and `y` swapped, and at
/// the offsets with the sign of `x` or of `y` changed.
pub proof fn lemma_stamp_mirrored(
    radius: nat,
    hardness: u8,
    opacity: u8,
    color: Seq<u8>,
    pixel: PixelModel,
)
    requires
        soft_circle_stamp(radius, hardness, opacity, color).contains(pixel),
    ensures
        soft_circle_stamp(radius, hardness, opacity, color).contains(
            PixelModel { x: pixel.y, y: pixel.x, ..pixel },
        ),
        soft_circle_stamp(radius, hardness, opacity, color).contains(
            PixelModel { x: -pixel.x, ..pixel },
        ),
        soft_circle_stamp(radius, hardness, opacity, color).contains(
            PixelModel { y: -pixel.y, ..pixel },
        ),
{
    lemma_stamp_symmetric(pixel.x, pixel.y, radius, hardness, opacity);
    lemma_stamp_contains(radius, hardness, opacity, color, pixel);
    lemma_stamp_contains(
        radius,
        hardness,
        opacity,
        color,
        PixelModel { x: pixel.y, y: pixel.x, ..pixel },
    );
    lemma_stamp_contains(radius, hardness, opacity, color, PixelModel { x: -pixel.x, ..pixel });
    lemma_stamp_contains(radius, hardness, opacity, color, PixelModel { y: -pixel.y, ..pixel });
}

/// The alpha byte of a soft circle at squared distance `d2` from the centre.
fn soft_alpha(d2: u64, radius: u32, hardness: u8, opacity: u8) -> (alpha: u8)
    requires
        0 < radius <= MAX_RADIUS,
        d2 * 65536 <= radius * radius,
    ensures
        alpha == falloff_alpha(int_sqrt((d2 * 65536) as nat), radius as nat, hardness, opacity),
        alpha <= opacity,
{
    let r: u128 = radius as u128;
    let h: u128 = hardness as u128;
    let o: u128 = opacity as u128;
    assert(r * r <= 0xFFFF_FFFF_FFFF) by (nonlinear_arith)
        requires
            r <= 0xFF_FFFF,
    ;
    let dist: u128 = isqrt(d2 as u128 * 65536);
    proof {
        lemma_int_sqrt_bounds((d2 * 65536) as nat);
        if dist > r {
            assert(dist * dist > r * r) by (nonlinear_arith)
                requires
                    dist > r,
            ;
        }
        lemma_falloff_alpha_bound(dist as nat, radius as nat, hardness, opacity);
        assert(h * r <= 255 * 0xFF_FFFF) by (nonlinear_arith)
            requires
                h <= 255,
                r <= 0xFF_FFFF,
        ;
    }
    if 255 * dist < h * r || hardness == 255 {
        opacity
    } else {
        proof {
            lemma_band_position(dist as nat, radius as nat, hardness);
        }
        assert(r * (255 - h) <= 0xFFFF_FFFF) by (nonlinear_arith)
            requires
                r <= 0xFF_FFFF,
                0 <= 255 - h <= 255,
        ;
        let den: u128 = r * (255 - h);
        let num: u128 = 255 * dist - h * r;
        proof {
            lemma_falloff_rest_monotonic(num as nat, num as nat, den as nat);
            assert(den * den <= 0xFFFF_FFFF_FFFF_FFFF && den * den * den
                <= 0xFFFF_FFFF_FFFF_FFFF_FFFF_FFFF) by (nonlinear_arith)
                requires
                    0 <= den <= 0xFFFF_FFFF,
            ;
            assert(num * num <= den * den) by (nonlinear_arith)
                requires
                    0 <= num <= den,
            ;
            assert(den * den * den > 0) by (nonlinear_arith)
                requires
                    den > 0,
            ;
        }
        let cube: u128 = den * den * den;
        let gone: u128 = num * num * (3 * den - 2 * num);
        let rest: u128 = cube - gone;
        assert(o * rest <= 255 * cube) by (nonlinear_arith)
            requires
                o <= 255,
                0 <= rest <= cube,
        ;
        let alpha: u128 = div_round(o * rest, cube);
        alpha as u8
    }
}

/// Generates a soft circle brush stamp which you can use to merge in with a pixel buffer.
///
/// The stamp holds, row by row, each offset within `radius` (in 1/256 of a
/// pixel) whose alpha is above zero, with that alpha and the given colour.
pub fn soft_circle(radius: u32, hardness: u8, opacity: u8, color: [u8; 3]) -> (stamp: Stamp)
    requires
        0 < radius <= MAX_RADIUS,
    ensures
        stamp@ == soft_circle_stamp(radius as nat, hardness, opacity, color@),
        forall|i: int|
            0 <= i < stamp@.len() ==> stamp_covers(
                (#[trigger] stamp@[i]).x,
                stamp@[i].y,
                radius as nat,
                hardness,
                opacity,
            ) && stamp@[i] == stamp_pixel(
                stamp@[i].x,
                stamp@[i].y,
                radius as nat,
                hardness,
                opacity,
                color@,
            ),
        hardness == 255 ==> forall|i: int|
            0 <= i < stamp@.len() ==> (#[trigger] stamp@[i]).alpha == opacity,
{
    let mut pixels: Vec<Pixel> = Vec::new();
    let extent: i64 = ((radius as u64 + 255) / 256) as i64;
    let side: i64 = 2 * extent + 1;
    assert(radius * radius <= 0xFFFF_FFFF_FFFF) by (nonlinear_arith)
        requires
            radius <= 0xFF_FFFF,
    ;
    let reach: u64 = radius as u64 * radius as u64;
    assert(pixel_models(pixels@) =~= Seq::<PixelModel>::empty());
    let mut row: i64 = 0;
    while row < side
        invariant
            0 < radius <= MAX_RADIUS,
            extent == stamp_extent(radius as nat),
            side == 2 * extent + 1,
            reach == radius * radius,
            0 <= row <= side,
            pixel_models(pixels@) == stamp_rows(
                row as nat,
                radius as nat,
                hardness,
                opacity,
                color@,
            ),
            forall|i: int|
                0 <= i < pixels@.len() ==> stamp_covers(
                    (#[trigger] pixels@[i])@.x,
                    pixels@[i]@.y,
                    radius as nat,
                    hardness,
                    opacity,
                ) && pixels@[i]@ == stamp_pixel(
                    pixels@[i]@.x,
                    pixels@[i]@.y,
                    radius as nat,
                    hardness,
                    opacity,
                    color@,
                ),
        decreases side - row,
    {
        let y: i64 = row - extent;
        let ghost above = pixel_models(pixels@);
        let mut col: i64 = 0;
        while col < side
            invariant
                0 < radius <= MAX_RADIUS,
                extent == stamp_extent(radius as nat),
                side == 2 * extent + 1,
                reach == radius * radius,
                0 <= row < side,
                y == row - extent,
                0 <= col <= side,
                pixel_models(pixels@) == above + stamp_row(
                    y as int,
                    col as nat,
                    radius as nat,
                    hardness,
                    opacity,
                    color@,
                ),
                forall|i: int|
                    0 <= i < pixels@.len() ==> stamp_covers(
                        (#[trigger] pixels@[i])@.x,
                        pixels@[i]@.y,
                        radius as nat,
                        hardness,
                        opacity,
                    ) && pixels@[i]@ == stamp_pixel(
                        pixels@[i]@.x,
                        pixels@[i]@.y,
                        radius as nat,
                        hardness,
                        opacity,
                        color@,
                    ),
            decreases side - col,
        {
            let x: i64 = col - extent;
            assert(0 <= x * x <= 0x1_0000_0000 && 0 <= y * y <= 0x1_0000_0000) by (nonlinear_arith)
                requires
                    -0x1_0000 <= x <= 0x1_0000,
                    -0x1_0000 <= y <= 0x1_0000,
            ;
            let d2: u64 = (x * x + y * y) as u64;
            let ghost before = pixels@;
            let ghost left = stamp_row(
                y as int,
                col as nat,
                radius as nat,
                hardness,
                opacity,
                color@,
            );
            if d2 * 65536 <= reach {
                let alpha: u8 = soft_alpha(d2, radius, hardness, opacity);
                if alpha > 0 {
                    let pixel = Pixel {
                        x: x as i32,
                        y: y as i32,
                        color: [color[0], color[1], color[2], alpha],
                    };
                    assert(pixel@ == stamp_pixel(
                        x as int,
                        y as int,
                        radius as nat,
                        hardness,
                        opacity,
                        color@,
                    ));
                    pixels.push(pixel);
                    assert(pixel_models(pixels@) =~= (above + left).push(pixel@));
                    assert((above + left).push(pixel@) =~= above + left.push(pixel@));
                }
            }
            col += 1;
        }
        row += 1;
    }
    Stamp { pixels }
}

} // verus!
