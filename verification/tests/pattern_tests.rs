use hackerland::pattern::{paint, pixel_at, Pixel, BYTES_PER_PIXEL};

fn float_gradient(x: u32, y: u32, width: u32, height: u32) -> Pixel {
    let r = ((x as f32 / width as f32) * 40.0 + 10.0) as u8;
    let g = ((y as f32 / height as f32) * 30.0 + 10.0) as u8;
    let b = ((x as f32 / width as f32) * 60.0 + 40.0) as u8;
    Pixel { r, g, b, a: 255 }
}

#[test]
fn gradient_starts_dark_in_the_top_left_corner() {
    assert_eq!(pixel_at(0, 0, 1920, 1080), Pixel { r: 10, g: 10, b: 40, a: 255 });
}

#[test]
fn gradient_is_brightest_in_the_bottom_right_corner() {
    assert_eq!(pixel_at(1919, 1079, 1920, 1080), Pixel { r: 49, g: 39, b: 99, a: 255 });
}

#[test]
fn gradient_is_halfway_in_the_middle() {
    assert_eq!(pixel_at(960, 540, 1920, 1080), Pixel { r: 30, g: 25, b: 70, a: 255 });
}

#[test]
fn gradient_rounds_down() {
    // 7 * 40 / 16 = 17.5, 5 * 30 / 9 = 16.66.., 7 * 60 / 16 = 26.25
    assert_eq!(pixel_at(7, 5, 16, 9), Pixel { r: 27, g: 26, b: 66, a: 255 });
}

#[test]
fn gradient_of_a_single_pixel_output() {
    assert_eq!(pixel_at(0, 0, 1, 1), Pixel { r: 10, g: 10, b: 40, a: 255 });
}

#[test]
fn gradient_red_and_blue_ignore_the_row() {
    for y in 0..50 {
        let p = pixel_at(33, y, 100, 50);
        assert_eq!(p.r, 23);
        assert_eq!(p.b, 59);
    }
}

#[test]
fn gradient_green_ignores_the_column() {
    for x in 0..100 {
        assert_eq!(pixel_at(x, 25, 100, 50).g, 25);
    }
}

#[test]
fn gradient_is_always_opaque_and_within_its_ramps() {
    for y in 0..37 {
        for x in 0..53 {
            let p = pixel_at(x, y, 53, 37);
            assert_eq!(p.a, 255);
            assert!(10 <= p.r && p.r < 50);
            assert!(10 <= p.g && p.g < 40);
            assert!(40 <= p.b && p.b < 100);
        }
    }
}

#[test]
fn pattern_is_deterministic() {
    for y in 0..64 {
        for x in 0..48 {
            assert_eq!(pixel_at(x, y, 48, 64), pixel_at(x, y, 48, 64));
        }
    }
}

#[test]
fn gradient_agrees_with_float_arithmetic_on_a_full_hd_output() {
    for y in 0..1080 {
        for x in 0..1920 {
            assert_eq!(pixel_at(x, y, 1920, 1080), float_gradient(x, y, 1920, 1080));
        }
    }
}

#[test]
fn gradient_agrees_with_float_arithmetic_on_odd_sizes() {
    for &(w, h) in [(1u32, 1u32), (3, 7), (1366, 768), (2560, 3), (17, 4321)].iter() {
        for y in 0..h {
            for x in 0..w {
                assert_eq!(pixel_at(x, y, w, h), float_gradient(x, y, w, h));
            }
        }
    }
}

#[test]
fn pixel_packs_into_an_argb_word() {
    let p = Pixel { r: 0x12, g: 0x34, b: 0x56, a: 0xff };
    assert_eq!(p.to_argb(), 0xff123456);
    assert_eq!(p.to_argb().to_le_bytes(), p.to_bgra());
}

#[test]
fn pixel_lies_in_memory_as_blue_green_red_alpha() {
    let p = Pixel { r: 1, g: 2, b: 3, a: 4 };
    assert_eq!(p.to_bgra(), [3, 2, 1, 4]);
}

#[test]
fn a_pixel_takes_four_bytes() {
    assert_eq!(BYTES_PER_PIXEL, 4);
}

#[test]
fn paint_writes_every_pixel_in_memory_order() {
    let (w, h) = (5u32, 3u32);
    let stride = 20usize;
    let mut canvas = vec![0u8; stride * h as usize];
    paint(&mut canvas, 0, w, h, stride);
    for y in 0..h {
        for x in 0..w {
            let at = y as usize * stride + 4 * x as usize;
            assert_eq!(canvas[at..at + 4], pixel_at(x, y, w, h).to_bgra());
        }
    }
}

#[test]
fn paint_leaves_padding_and_surroundings_alone() {
    let (w, h) = (2u32, 2u32);
    let stride = 11usize;
    let origin = 3usize;
    let mut canvas = vec![0xeeu8; origin + stride * h as usize + 5];
    paint(&mut canvas, origin, w, h, stride);
    let top_left = pixel_at(0, 0, w, h).to_bgra();
    let top_right = pixel_at(1, 0, w, h).to_bgra();
    let bottom_left = pixel_at(0, 1, w, h).to_bgra();
    let bottom_right = pixel_at(1, 1, w, h).to_bgra();
    let mut expected = vec![0xeeu8; canvas.len()];
    expected[3..7].copy_from_slice(&top_left);
    expected[7..11].copy_from_slice(&top_right);
    expected[14..18].copy_from_slice(&bottom_left);
    expected[18..22].copy_from_slice(&bottom_right);
    assert_eq!(canvas, expected);
}

#[test]
fn paint_of_an_empty_image_writes_nothing() {
    let mut canvas = vec![7u8; 16];
    paint(&mut canvas, 4, 0, 3, 4);
    assert_eq!(canvas, vec![7u8; 16]);
    paint(&mut canvas, 4, 1, 0, 4);
    assert_eq!(canvas, vec![7u8; 16]);
}

#[test]
fn paint_fills_a_full_hd_frame() {
    let (w, h) = (1920u32, 1080u32);
    let stride = 7680usize;
    let mut canvas = vec![0u8; stride * h as usize];
    paint(&mut canvas, 0, w, h, stride);
    assert_eq!(canvas.len(), 8_294_400);
    assert_eq!(canvas[0..4], [40, 10, 10, 255]);
    let last = canvas.len() - 4;
    assert_eq!(canvas[last..], [99, 39, 49, 255]);
}
