use prism::shell::icon_file::{blit_icon, erase_native_glyph};

fn pixel(frame: &[u8], width: usize, x: usize, y: usize) -> [u8; 4] {
    let i = (y * width + x) * 4;
    [frame[i], frame[i + 1], frame[i + 2], frame[i + 3]]
}

#[test]
fn glyph_square_becomes_an_opaque_row_gradient() {
    let (w, h) = (4usize, 2usize);
    let mut frame = Vec::new();
    for y in 0..h {
        for x in 0..w {
            frame.extend_from_slice(&[(10 * x) as u8, (10 * y) as u8, 100, 7]);
        }
    }
    erase_native_glyph(&mut frame, w as i32, h as i32);
    assert_eq!(pixel(&frame, w, 1, 0), [0, 0, 100, 255]);
    assert_eq!(pixel(&frame, w, 2, 0), [15, 0, 100, 255]);
    assert_eq!(pixel(&frame, w, 1, 1), [0, 10, 100, 255]);
    assert_eq!(pixel(&frame, w, 2, 1), [15, 10, 100, 255]);
    assert_eq!(pixel(&frame, w, 0, 0), [0, 0, 100, 7]);
    assert_eq!(pixel(&frame, w, 3, 1), [30, 10, 100, 7]);
}

#[test]
fn an_empty_frame_is_left_alone() {
    let mut frame = vec![1u8, 2, 3, 4];
    erase_native_glyph(&mut frame, 0, 1);
    assert_eq!(frame, vec![1, 2, 3, 4]);
}

#[test]
fn the_glyph_square_is_capped_and_centred() {
    let (w, h) = (40usize, 34usize);
    let mut frame = vec![9u8; w * h * 4];
    erase_native_glyph(&mut frame, w as i32, h as i32);
    // 32-pixel square from (4, 1) to (35, 32).
    assert_eq!(pixel(&frame, w, 3, 1), [9, 9, 9, 9]);
    assert_eq!(pixel(&frame, w, 4, 1), [9, 9, 9, 255]);
    assert_eq!(pixel(&frame, w, 35, 32), [9, 9, 9, 255]);
    assert_eq!(pixel(&frame, w, 36, 32), [9, 9, 9, 9]);
    assert_eq!(pixel(&frame, w, 4, 0), [9, 9, 9, 9]);
    assert_eq!(pixel(&frame, w, 4, 33), [9, 9, 9, 9]);
}

#[test]
fn an_opaque_icon_replaces_the_centre_in_bgr_order() {
    let (w, h) = (4usize, 4usize);
    let mut frame = [10u8, 20, 30, 255].repeat(w * h);
    let icon = [200u8, 100, 50, 255];
    blit_icon(&mut frame, 4, 4, &icon, 1, 1, 2, 2);
    for (x, y) in [(1, 1), (2, 1), (1, 2), (2, 2)] {
        assert_eq!(pixel(&frame, w, x, y), [50, 100, 200, 255]);
    }
    assert_eq!(pixel(&frame, w, 0, 0), [10, 20, 30, 255]);
    assert_eq!(pixel(&frame, w, 3, 2), [10, 20, 30, 255]);
}

#[test]
fn icon_alpha_blends_and_nearest_pixels_scale() {
    let (w, h) = (2usize, 1usize);
    let mut frame = [100u8, 100, 100, 0].repeat(w * h);
    // Two pixels: transparent red, half-opaque blue.
    let icon = [255u8, 0, 0, 0, 0, 0, 255, 128];
    blit_icon(&mut frame, 2, 1, &icon, 2, 1, 2, 1);
    assert_eq!(pixel(&frame, w, 0, 0), [100, 100, 100, 0]);
    // blue 255 at alpha 128 over 100: (255*128 + 100*127) / 255 = 177
    assert_eq!(pixel(&frame, w, 1, 0), [177, 49, 49, 0]);
}
