use rustbrush::blend::{erase_alpha, merge_channel, paint_channel};
use rustbrush::operations::{blend_stamp, count_steps, PaintOperation};
use rustbrush::{soft_circle, Brush, BrushError, Pixel, Stamp};

fn dot(color: [u8; 4]) -> Stamp {
    Stamp { pixels: vec![Pixel { x: 0, y: 0, color }] }
}

#[test]
fn paint_channel_values() {
    assert_eq!(paint_channel(0, 0), 0);
    assert_eq!(paint_channel(0, 255), 255);
    assert_eq!(paint_channel(255, 0), 255);
    assert_eq!(paint_channel(100, 100), 161);
    assert_eq!(paint_channel(0, 38), 38);
    assert_eq!(paint_channel(38, 38), 70);
    assert_eq!(paint_channel(0, 128), 128);
}

#[test]
fn erase_alpha_values() {
    assert_eq!(erase_alpha(255, 255, 128), 127);
    assert_eq!(erase_alpha(255, 255, 127), 128);
    assert_eq!(erase_alpha(255, 128, 255), 127);
    assert_eq!(erase_alpha(200, 38, 38), 196);
    assert_eq!(erase_alpha(100, 255, 255), 0);
    assert_eq!(erase_alpha(100, 0, 255), 100);
    assert_eq!(erase_alpha(100, 255, 0), 100);
}

#[test]
fn merge_channel_values() {
    assert_eq!(merge_channel(100, 200, 128), 150);
    assert_eq!(merge_channel(0, 255, 38), 38);
    assert_eq!(merge_channel(10, 20, 0), 10);
    assert_eq!(merge_channel(10, 20, 255), 20);
}

#[test]
fn step_counts_round_to_the_nearest() {
    assert_eq!(count_steps((0, 0), (100, 0), 2560, 26), 98);
    assert_eq!(count_steps((0, 0), (100, 0), 2560, 256), 10);
    assert_eq!(count_steps((0, 0), (104, 0), 2560, 256), 10);
    assert_eq!(count_steps((0, 0), (105, 0), 2560, 256), 11);
    assert_eq!(count_steps((0, 0), (3, 4), 2560, 256), 1);
    assert_eq!(count_steps((10, -10), (40, 30), 2560, 256), 5);
    assert_eq!(count_steps((40, 30), (10, -10), 2560, 256), 5);
    assert_eq!(count_steps((7, 7), (7, 7), 2560, 26), 1);
    assert_eq!(
        count_steps((i32::MIN, i32::MIN), (i32::MAX, i32::MAX), 1, 1),
        398065729440179
    );
}

#[test]
fn painting_one_opaque_pixel() {
    let mut buffer: Vec<u8> = vec![0, 0, 0, 0];
    let brush = Brush::default().with_radius(256).with_hardness(255).with_opacity(255);
    let result = PaintOperation {
        pixel_buffer: &mut buffer,
        pixel_buffer_width: 1,
        pixel_buffer_height: 1,
        brush: &brush,
        color: [255, 0, 0],
        cursor_position: (0, 0),
        last_cursor_position: (0, 0),
        is_eraser: false,
    }
    .process();
    assert_eq!(result, Ok(()));
    assert_eq!(buffer, vec![255, 0, 0, 255]);
}

#[test]
fn erasing_half_of_an_opaque_pixel() {
    let mut buffer: Vec<u8> = vec![10, 20, 30, 255];
    blend_stamp(&mut buffer, 1, 1, &dot([0, 0, 0, 255]), 0, 0, true, 128);
    assert_eq!(buffer, vec![10, 20, 30, 127]);
    let mut buffer: Vec<u8> = vec![10, 20, 30, 255];
    blend_stamp(&mut buffer, 1, 1, &dot([0, 0, 0, 255]), 0, 0, true, 127);
    assert_eq!(buffer, vec![10, 20, 30, 128]);
}

#[test]
fn stationary_click_stamps_on_the_cursor_alone() {
    let brush = Brush::default().with_radius(512).with_opacity(100);
    let mut buffer: Vec<u8> = vec![0; 9 * 9 * 4];
    let result = PaintOperation {
        pixel_buffer: &mut buffer,
        pixel_buffer_width: 9,
        pixel_buffer_height: 9,
        brush: &brush,
        color: [10, 20, 30],
        cursor_position: (4, 4),
        last_cursor_position: (4, 4),
        is_eraser: false,
    }
    .process();
    assert_eq!(result, Ok(()));
    let stamp = brush.compute_stamp([10, 20, 30]);
    let mut want: Vec<u8> = vec![0; 9 * 9 * 4];
    blend_stamp(&mut want, 9, 9, &stamp, 4, 4, false, 100);
    blend_stamp(&mut want, 9, 9, &stamp, 4, 4, false, 100);
    assert_eq!(buffer, want);
    for y in 0..9i32 {
        for x in 0..9i32 {
            let touched = buffer[((y * 9 + x) * 4 + 3) as usize] > 0;
            assert_eq!(touched, (x - 4) * (x - 4) + (y - 4) * (y - 4) < 4);
        }
    }
}

#[test]
fn stroke_places_stamps_evenly_from_start_to_end() {
    let brush = Brush::default().with_radius(256).with_spacing(640).with_hardness(255);
    assert_eq!(count_steps((0, 1), (10, 1), 256, 640), 4);
    let mut buffer: Vec<u8> = vec![0; 11 * 3 * 4];
    let result = PaintOperation {
        pixel_buffer: &mut buffer,
        pixel_buffer_width: 11,
        pixel_buffer_height: 3,
        brush: &brush,
        color: [0, 0, 0],
        cursor_position: (10, 1),
        last_cursor_position: (0, 1),
        is_eraser: false,
    }
    .process();
    assert_eq!(result, Ok(()));
    let stamp = soft_circle(256, 255, 255, [0, 0, 0]);
    let mut want: Vec<u8> = vec![0; 11 * 3 * 4];
    for x in [0, 3, 5, 8, 10] {
        blend_stamp(&mut want, 11, 3, &stamp, x, 1, false, 255);
    }
    assert_eq!(buffer, want);
    let top: Vec<bool> = (0..11).map(|x| buffer[x * 4 + 3] > 0).collect();
    assert_eq!(
        top,
        vec![true, false, false, true, false, true, false, false, true, false, true]
    );
}

#[test]
fn stroke_towards_smaller_coordinates() {
    let brush = Brush::default().with_radius(100).with_spacing(1529).with_hardness(255);
    assert_eq!(count_steps((3, 0), (-4, 0), 100, 1529), 3);
    let mut buffer: Vec<u8> = vec![0; 4 * 4];
    let result = PaintOperation {
        pixel_buffer: &mut buffer,
        pixel_buffer_width: 4,
        pixel_buffer_height: 1,
        brush: &brush,
        color: [1, 2, 3],
        cursor_position: (-4, 0),
        last_cursor_position: (3, 0),
        is_eraser: false,
    }
    .process();
    assert_eq!(result, Ok(()));
    assert_eq!(buffer, vec![0, 0, 0, 0, 1, 2, 3, 255, 0, 0, 0, 0, 1, 2, 3, 255]);
}

#[test]
fn pixels_outside_the_buffer_are_left_out() {
    let stamp = soft_circle(512, 255, 255, [255, 255, 255]);
    let mut buffer: Vec<u8> = vec![0; 2 * 2 * 4];
    blend_stamp(&mut buffer, 2, 2, &stamp, -1, 0, false, 255);
    assert_eq!(
        buffer,
        vec![255, 255, 255, 255, 255, 255, 255, 255, 255, 255, 255, 255, 0, 0, 0, 0]
    );
    let mut far: Vec<u8> = vec![7; 2 * 2 * 4];
    blend_stamp(&mut far, 2, 2, &stamp, 100, -100, false, 255);
    assert_eq!(far, vec![7; 16]);
    blend_stamp(&mut far, 2, 2, &stamp, i32::MAX, i32::MIN, true, 255);
    assert_eq!(far, vec![7; 16]);
}

#[test]
fn erasing_keeps_colour_and_never_raises_alpha() {
    let brush = Brush::default().with_radius(768).with_opacity(200);
    let mut buffer: Vec<u8> = (0..8 * 8 * 4).map(|i| (i * 7 % 256) as u8).collect();
    let mut before = buffer.clone();
    for _ in 0..4 {
        let result = PaintOperation {
        pixel_buffer: &mut buffer,
            pixel_buffer_width: 8,
            pixel_buffer_height: 8,
            brush: &brush,
            color: [0, 0, 0],
            cursor_position: (6, 5),
            last_cursor_position: (1, 2),
            is_eraser: true,
        }
        .process();
        assert_eq!(result, Ok(()));
        for i in 0..buffer.len() {
            if i % 4 == 3 {
                assert!(buffer[i] <= before[i]);
            } else {
                assert_eq!(buffer[i], before[i]);
            }
        }
        assert_ne!(buffer, before);
        before = buffer.clone();
    }
}

#[test]
fn painting_opaque_white_twice_is_painting_it_once() {
    let stamp = soft_circle(512, 255, 255, [255, 255, 255]);
    let mut once: Vec<u8> = (0..6 * 6 * 4).map(|i| (i * 11 % 256) as u8).collect();
    let start = once.clone();
    blend_stamp(&mut once, 6, 6, &stamp, 2, 3, false, 255);
    assert_ne!(once, start);
    let mut twice = once.clone();
    blend_stamp(&mut twice, 6, 6, &stamp, 2, 3, false, 255);
    assert_eq!(twice, once);
    assert_eq!(&once[(3 * 6 + 2) * 4..(3 * 6 + 2) * 4 + 4], &[255, 255, 255, 255]);
}

#[test]
fn painting_builds_up_where_stamps_overlap() {
    let mut buffer: Vec<u8> = vec![0, 0, 0, 0];
    blend_stamp(&mut buffer, 1, 1, &dot([100, 0, 38, 38]), 0, 0, false, 255);
    assert_eq!(buffer, vec![100, 0, 38, 38]);
    blend_stamp(&mut buffer, 1, 1, &dot([100, 0, 38, 38]), 0, 0, false, 255);
    assert_eq!(buffer, vec![161, 0, 70, 70]);
}

#[test]
fn a_brush_that_cannot_draw_is_refused() {
    let mut buffer: Vec<u8> = vec![1, 2, 3, 4];
    let no_radius = Brush::default().with_radius(0);
    let result = PaintOperation {
        pixel_buffer: &mut buffer,
        pixel_buffer_width: 1,
        pixel_buffer_height: 1,
        brush: &no_radius,
        color: [255, 0, 0],
        cursor_position: (0, 0),
        last_cursor_position: (0, 0),
        is_eraser: false,
    }
    .process();
    assert_eq!(result, Err(BrushError::InvalidRadius));
    assert_eq!(buffer, vec![1, 2, 3, 4]);
    let no_spacing = Brush::default().with_spacing(0);
    let result = PaintOperation {
        pixel_buffer: &mut buffer,
        pixel_buffer_width: 1,
        pixel_buffer_height: 1,
        brush: &no_spacing,
        color: [255, 0, 0],
        cursor_position: (5, 0),
        last_cursor_position: (0, 0),
        is_eraser: true,
    }
    .process();
    assert_eq!(result, Err(BrushError::InvalidSpacing));
    assert_eq!(buffer, vec![1, 2, 3, 4]);
}
