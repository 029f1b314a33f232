use rustbrush::math::{div_round, isqrt};
use rustbrush::stamp::MAX_RADIUS;
use rustbrush::{soft_circle, Brush, BrushError, Pixel, Stamp};

fn alpha_at(stamp: &Stamp, x: i32, y: i32) -> Option<u8> {
    stamp
        .pixels
        .iter()
        .find(|p| p.x == x && p.y == y)
        .map(|p| p.color[3])
}

#[test]
fn isqrt_is_the_floor_of_the_root() {
    assert_eq!(isqrt(0), 0);
    assert_eq!(isqrt(1), 1);
    assert_eq!(isqrt(3), 1);
    assert_eq!(isqrt(4), 2);
    assert_eq!(isqrt(99), 9);
    assert_eq!(isqrt(100), 10);
    assert_eq!(isqrt(25 * 65536), 1280);
    assert_eq!(isqrt(u128::MAX), 0xFFFF_FFFF_FFFF_FFFF);
}

#[test]
fn div_round_rounds_halves_up() {
    assert_eq!(div_round(0, 7), 0);
    assert_eq!(div_round(10, 4), 3);
    assert_eq!(div_round(9, 4), 2);
    assert_eq!(div_round(11, 4), 3);
    assert_eq!(div_round(255 * 255, 255), 255);
}

#[test]
fn full_hardness_gives_every_pixel_the_opacity() {
    let stamp = soft_circle(2560, 255, 200, [1, 2, 3]);
    assert_eq!(stamp.pixels.len(), 317);
    for p in &stamp.pixels {
        assert_eq!(p.color, [1, 2, 3, 200]);
    }
    assert_eq!(alpha_at(&stamp, 10, 0), Some(200));
    assert_eq!(alpha_at(&stamp, 6, 8), Some(200));
}

#[test]
fn zero_hardness_alpha_falls_with_distance() {
    let stamp = soft_circle(2560, 0, 255, [0, 0, 0]);
    assert_eq!(stamp.pixels.len(), 293);
    for a in &stamp.pixels {
        for b in &stamp.pixels {
            if a.x * a.x + a.y * a.y <= b.x * b.x + b.y * b.y {
                assert!(a.color[3] >= b.color[3]);
            }
        }
    }
    let row: Vec<u8> = (0..10).map(|x| alpha_at(&stamp, x, 0).unwrap()).collect();
    assert_eq!(row, vec![255, 248, 228, 200, 165, 128, 90, 55, 27, 7]);
    assert_eq!(alpha_at(&stamp, 10, 0), None);
}

#[test]
fn default_brush_stamp_has_a_hard_core_and_a_soft_rim() {
    let stamp = Brush::default().compute_stamp([9, 8, 7]);
    assert_eq!(stamp.pixels.len(), 293);
    let row: Vec<u8> = (0..10).map(|x| alpha_at(&stamp, x, 0).unwrap()).collect();
    assert_eq!(row, vec![255, 255, 247, 223, 189, 149, 107, 66, 32, 9]);
    for p in &stamp.pixels {
        assert_eq!(&p.color[0..3], &[9, 8, 7]);
        assert!(p.color[3] > 0);
    }
}

#[test]
fn opacity_scales_the_alpha() {
    let stamp = Brush::default().with_opacity(38).compute_stamp([255, 255, 255]);
    assert_eq!(stamp.pixels.len(), 277);
    let row: Vec<u8> = (0..10).map(|x| alpha_at(&stamp, x, 0).unwrap()).collect();
    assert_eq!(row, vec![38, 38, 37, 33, 28, 22, 16, 10, 5, 1]);
}

#[test]
fn stamp_is_symmetric() {
    for (radius, hardness) in [(2560u32, 26u8), (640, 0), (1000, 128), (256, 255)] {
        let stamp = soft_circle(radius, hardness, 255, [0, 0, 0]);
        for p in &stamp.pixels {
            let a = Some(p.color[3]);
            assert_eq!(alpha_at(&stamp, p.y, p.x), a);
            assert_eq!(alpha_at(&stamp, -p.x, p.y), a);
            assert_eq!(alpha_at(&stamp, p.x, -p.y), a);
            assert_eq!(alpha_at(&stamp, -p.x, -p.y), a);
        }
    }
}

#[test]
fn stamp_stays_within_the_radius() {
    for radius in [1u32, 100, 256, 640, 2560, 2600] {
        let stamp = soft_circle(radius, 255, 255, [0, 0, 0]);
        for p in &stamp.pixels {
            let d2 = (p.x as i64 * p.x as i64 + p.y as i64 * p.y as i64) * 65536;
            assert!(d2 <= radius as i64 * radius as i64);
        }
    }
}

#[test]
fn stamp_rows_come_from_the_top_and_from_the_left() {
    let stamp = soft_circle(640, 0, 255, [4, 5, 6]);
    let got: Vec<(i32, i32, u8)> = stamp.pixels.iter().map(|p| (p.x, p.y, p.color[3])).collect();
    let want: Vec<(i32, i32, u8)> = vec![
        (-1, -2, 8), (0, -2, 27), (1, -2, 8),
        (-2, -1, 8), (-1, -1, 103), (0, -1, 165), (1, -1, 103), (2, -1, 8),
        (-2, 0, 27), (-1, 0, 165), (0, 0, 255), (1, 0, 165), (2, 0, 27),
        (-2, 1, 8), (-1, 1, 103), (0, 1, 165), (1, 1, 103), (2, 1, 8),
        (-1, 2, 8), (0, 2, 27), (1, 2, 8),
    ];
    assert_eq!(got, want);
}

#[test]
fn a_radius_below_one_pixel_still_covers_the_origin() {
    let stamp = soft_circle(100, 0, 255, [1, 1, 1]);
    assert_eq!(stamp.pixels.len(), 1);
    let p: &Pixel = &stamp.pixels[0];
    assert_eq!((p.x, p.y, p.color), (0, 0, [1, 1, 1, 255]));
    let tiny = soft_circle(1, 128, 77, [1, 1, 1]);
    assert_eq!(tiny.pixels.len(), 1);
    assert_eq!(tiny.pixels[0].color[3], 77);
}

#[test]
fn one_pixel_radius_covers_a_cross() {
    let stamp = soft_circle(256, 255, 255, [255, 0, 0]);
    let got: Vec<(i32, i32)> = stamp.pixels.iter().map(|p| (p.x, p.y)).collect();
    assert_eq!(got, vec![(0, -1), (-1, 0), (0, 0), (1, 0), (0, 1)]);
}

#[test]
fn zero_opacity_gives_an_empty_stamp() {
    let stamp = soft_circle(2560, 26, 0, [1, 2, 3]);
    assert!(stamp.pixels.is_empty());
}

#[test]
fn default_brush_settings() {
    let brush = Brush::default();
    assert_eq!(brush.radius(), 2560);
    assert_eq!(brush.spacing(), 26);
    assert_eq!(brush.opacity(), 255);
    assert_eq!(brush.hardness(), 26);
    assert_eq!(brush.validate(), Ok(()));
    match &brush {
        Brush::SoftCircle { base, .. } => assert_eq!(base.id, "soft-circle"),
    }
}

#[test]
fn builders_replace_one_setting() {
    let brush = Brush::default().with_radius(512);
    assert_eq!((brush.radius(), brush.spacing(), brush.opacity(), brush.hardness()), (512, 26, 255, 26));
    let brush = brush.with_spacing(128);
    assert_eq!((brush.radius(), brush.spacing(), brush.opacity(), brush.hardness()), (512, 128, 255, 26));
    let brush = brush.with_opacity(38);
    assert_eq!((brush.radius(), brush.spacing(), brush.opacity(), brush.hardness()), (512, 128, 38, 26));
    let brush = brush.with_hardness(255);
    assert_eq!((brush.radius(), brush.spacing(), brush.opacity(), brush.hardness()), (512, 128, 38, 255));
    match &brush {
        Brush::SoftCircle { base, .. } => assert_eq!(base.id, "soft-circle"),
    }
}

#[test]
fn validate_names_the_setting_that_is_wrong() {
    assert_eq!(Brush::default().with_radius(0).validate(), Err(BrushError::InvalidRadius));
    assert_eq!(
        Brush::default().with_radius(MAX_RADIUS + 1).validate(),
        Err(BrushError::InvalidRadius)
    );
    assert_eq!(Brush::default().with_radius(MAX_RADIUS).validate(), Ok(()));
    assert_eq!(Brush::default().with_spacing(0).validate(), Err(BrushError::InvalidSpacing));
    assert_eq!(
        Brush::default().with_radius(0).with_spacing(0).validate(),
        Err(BrushError::InvalidRadius)
    );
    assert_eq!(Brush::default().with_opacity(0).with_hardness(0).validate(), Ok(()));
}
