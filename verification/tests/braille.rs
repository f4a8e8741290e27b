use gif_braille_tui::braille::{
    braille_glyph, pixel_is_lit, rgba_to_braille_colored, sample_block, Cell, RasterizedFrame,
    ALPHA_THRESHOLD, BRAILLE_BASE,
};
use gif_braille_tui::raster::{Raster, Rgba};

/// A raster of one colour.
fn solid(width: u32, height: u32, pixel: [u8; 4]) -> Raster {
    let mut samples = Vec::new();
    for _ in 0..(width * height) {
        samples.extend_from_slice(&pixel);
    }
    Raster::from_raw(width, height, samples).unwrap()
}

/// A black opaque raster with one white opaque pixel.
fn single_white_pixel(width: u32, height: u32, x: u32, y: u32) -> Raster {
    let mut samples = Vec::new();
    for py in 0..height {
        for px in 0..width {
            if px == x && py == y {
                samples.extend_from_slice(&[255, 255, 255, 255]);
            } else {
                samples.extend_from_slice(&[0, 0, 0, 255]);
            }
        }
    }
    Raster::from_raw(width, height, samples).unwrap()
}

fn grid(frame: &RasterizedFrame) -> Vec<Vec<Cell>> {
    (0..frame.height()).map(|row| frame.row(row).unwrap().clone()).collect()
}

#[test]
fn glyphs_start_at_the_blank_braille_pattern() {
    assert_eq!(BRAILLE_BASE, 0x2800);
    assert_eq!(braille_glyph(0), '\u{2800}');
    assert_eq!(braille_glyph(1), '\u{2801}');
    assert_eq!(braille_glyph(0x5A), '\u{285A}');
    assert_eq!(braille_glyph(255), '\u{28FF}');
    for mask in 0..=255u8 {
        assert_eq!(braille_glyph(mask) as u32, 0x2800 + mask as u32);
    }
}

#[test]
fn white_opaque_block_raises_all_dots() {
    let frame = rgba_to_braille_colored(&solid(2, 4, [255, 255, 255, 255]));
    assert_eq!(
        grid(&frame),
        vec![vec![Cell { glyph: '\u{28FF}', red: 255, green: 255, blue: 255 }]]
    );
}

#[test]
fn black_opaque_block_raises_no_dot() {
    let frame = rgba_to_braille_colored(&solid(2, 4, [0, 0, 0, 255]));
    assert_eq!(grid(&frame), vec![vec![Cell { glyph: '\u{2800}', red: 0, green: 0, blue: 0 }]]);
}

#[test]
fn transparent_block_raises_no_dot_but_keeps_colour() {
    let frame = rgba_to_braille_colored(&solid(2, 4, [200, 100, 50, 0]));
    assert_eq!(
        grid(&frame),
        vec![vec![Cell { glyph: '\u{2800}', red: 200, green: 100, blue: 50 }]]
    );
    let frame = rgba_to_braille_colored(&solid(2, 4, [255, 255, 255, ALPHA_THRESHOLD]));
    assert_eq!(
        grid(&frame),
        vec![vec![Cell { glyph: '\u{2800}', red: 255, green: 255, blue: 255 }]]
    );
}

#[test]
fn alpha_must_exceed_fifty() {
    let white = |alpha: u8| Rgba { red: 255, green: 255, blue: 255, alpha };
    assert!(!pixel_is_lit(white(0)));
    assert!(!pixel_is_lit(white(50)));
    assert!(pixel_is_lit(white(51)));
    assert!(pixel_is_lit(white(255)));
}

#[test]
fn luminance_must_exceed_twenty() {
    let opaque = |red: u8, green: u8, blue: u8| Rgba { red, green, blue, alpha: 255 };
    // Greys: the weights add up to one, so the luminance is the grey level.
    assert!(!pixel_is_lit(opaque(19, 19, 19)));
    assert!(!pixel_is_lit(opaque(20, 20, 20)));
    assert!(pixel_is_lit(opaque(21, 21, 21)));
    // 0.2126 * 95 = 20.197, 0.2126 * 94 = 19.98
    assert!(pixel_is_lit(opaque(95, 0, 0)));
    assert!(!pixel_is_lit(opaque(94, 0, 0)));
    // 0.7152 * 28 = 20.03, 0.7152 * 27 = 19.31
    assert!(pixel_is_lit(opaque(0, 28, 0)));
    assert!(!pixel_is_lit(opaque(0, 27, 0)));
    // 0.0722 * 255 = 18.4
    assert!(!pixel_is_lit(opaque(0, 0, 255)));
    // 0.0722 * 255 + 0.2126 * 8 = 20.11
    assert!(pixel_is_lit(opaque(8, 0, 255)));
    // The three other colours whose luminance is exactly 20.
    assert!(!pixel_is_lit(opaque(6, 7, 190)));
    assert!(!pixel_is_lit(opaque(37, 10, 69)));
    assert!(!pixel_is_lit(opaque(54, 0, 118)));
}

#[test]
fn luminance_test_agrees_with_float_formula() {
    for red in (0..=255u8).step_by(3) {
        for green in (0..=255u8).step_by(3) {
            for blue in (0..=255u8).step_by(3) {
                let luma = 0.2126 * (red as f32) + 0.7152 * (green as f32) + 0.0722 * (blue as f32);
                assert_eq!(
                    pixel_is_lit(Rgba { red, green, blue, alpha: 255 }),
                    luma > 20.0,
                    "{red} {green} {blue}"
                );
            }
        }
    }
    for red in 0..=100u8 {
        for green in 0..=30u8 {
            for blue in 0..=255u8 {
                let luma = 0.2126 * (red as f32) + 0.7152 * (green as f32) + 0.0722 * (blue as f32);
                assert_eq!(pixel_is_lit(Rgba { red, green, blue, alpha: 51 }), luma > 20.0);
            }
        }
    }
}

#[test]
fn each_pixel_of_a_block_has_its_own_dot() {
    // Left pixel column: bits 0 to 3 from top to bottom; right: bits 4 to 7.
    let expected: [(u32, u32, char); 8] = [
        (0, 0, '\u{2801}'),
        (0, 1, '\u{2802}'),
        (0, 2, '\u{2804}'),
        (0, 3, '\u{2808}'),
        (1, 0, '\u{2810}'),
        (1, 1, '\u{2820}'),
        (1, 2, '\u{2840}'),
        (1, 3, '\u{2880}'),
    ];
    for (x, y, glyph) in expected {
        let frame = rgba_to_braille_colored(&single_white_pixel(2, 4, x, y));
        let cell = frame.cell(0, 0).unwrap();
        assert_eq!(cell.glyph, glyph, "pixel ({x}, {y})");
        // One white pixel among eight: 255 / 8, truncated.
        assert_eq!((cell.red, cell.green, cell.blue), (31, 31, 31));
    }
}

#[test]
fn dots_combine_by_bit() {
    // White on the diagonal (0, 0), (1, 1) and at (0, 3).
    let mut samples = vec![0u8; 2 * 4 * 4];
    for (x, y) in [(0usize, 0usize), (1, 1), (0, 3)] {
        let base = 4 * (y * 2 + x);
        samples[base..base + 4].copy_from_slice(&[255, 255, 255, 255]);
    }
    let frame = rgba_to_braille_colored(&Raster::from_raw(2, 4, samples).unwrap());
    assert_eq!(frame.cell(0, 0).unwrap().glyph, '\u{2829}');
}

#[test]
fn colour_is_the_truncated_mean() {
    // 1 x 2 pixels: reds 10 and 11, greens 0 and 255, blues 7 and 8.
    let samples: Vec<u8> = vec![10, 0, 7, 255, 11, 255, 8, 255];
    let frame = rgba_to_braille_colored(&Raster::from_raw(1, 2, samples).unwrap());
    let cell = frame.cell(0, 0).unwrap();
    assert_eq!((cell.red, cell.green, cell.blue), (10, 127, 7));
    // The second pixel is bright enough, the first is not: dot 1 only.
    assert_eq!(cell.glyph, '\u{2802}');
}

#[test]
fn colour_counts_pixels_that_raise_no_dot() {
    // Two pixels: white but transparent, black and opaque.
    let samples: Vec<u8> = vec![255, 255, 255, 0, 0, 0, 0, 255];
    let frame = rgba_to_braille_colored(&Raster::from_raw(2, 1, samples).unwrap());
    assert_eq!(
        frame.cell(0, 0),
        Some(Cell { glyph: '\u{2800}', red: 127, green: 127, blue: 127 })
    );
}

#[test]
fn narrow_block_uses_left_column_only() {
    // 1 x 4: only the left pixel column exists.
    let frame = rgba_to_braille_colored(&solid(1, 4, [255, 255, 255, 255]));
    assert_eq!(
        grid(&frame),
        vec![vec![Cell { glyph: '\u{280F}', red: 255, green: 255, blue: 255 }]]
    );
}

#[test]
fn short_block_uses_top_rows_only() {
    // 2 x 2: only the two top pixel rows exist: bits 0, 1, 4, 5.
    let frame = rgba_to_braille_colored(&solid(2, 2, [255, 255, 255, 255]));
    assert_eq!(
        grid(&frame),
        vec![vec![Cell { glyph: '\u{2833}', red: 255, green: 255, blue: 255 }]]
    );
}

#[test]
fn edge_block_averages_over_its_own_pixels() {
    // 3 x 1: the second block holds the single pixel (2, 0).
    let samples: Vec<u8> = vec![0, 0, 0, 255, 0, 0, 0, 255, 90, 60, 30, 255];
    let frame = rgba_to_braille_colored(&Raster::from_raw(3, 1, samples).unwrap());
    assert_eq!(
        grid(&frame),
        vec![vec![
            Cell { glyph: '\u{2800}', red: 0, green: 0, blue: 0 },
            Cell { glyph: '\u{2801}', red: 90, green: 60, blue: 30 },
        ]]
    );
}

#[test]
fn grid_has_rounded_up_dimensions() {
    let sizes: [(u32, u32, usize, usize); 6] =
        [(1, 1, 1, 1), (2, 4, 1, 1), (3, 5, 2, 2), (4, 8, 2, 2), (5, 9, 3, 3), (16, 4, 8, 1)];
    for (width, height, cols, rows) in sizes {
        let frame = rgba_to_braille_colored(&solid(width, height, [9, 9, 9, 255]));
        assert_eq!(frame.height(), rows, "{width} x {height}");
        assert_eq!(frame.width(), cols, "{width} x {height}");
        for row in 0..rows {
            assert_eq!(frame.row(row).unwrap().len(), cols, "{width} x {height}");
        }
        assert!(frame.row(rows).is_none());
        assert!(frame.cell(cols, 0).is_none());
        assert!(frame.cell(0, rows).is_none());
    }
}

#[test]
fn empty_raster_gives_empty_grid() {
    let frame = rgba_to_braille_colored(&Raster::from_raw(0, 0, vec![]).unwrap());
    assert_eq!(frame.height(), 0);
    assert_eq!(frame.width(), 0);
    let frame = rgba_to_braille_colored(&Raster::from_raw(0, 5, vec![]).unwrap());
    assert_eq!(frame.height(), 2);
    assert_eq!(frame.row(0).unwrap().len(), 0);
    let frame = rgba_to_braille_colored(&Raster::from_raw(5, 0, vec![]).unwrap());
    assert_eq!(frame.height(), 0);
}

#[test]
fn cells_follow_their_blocks() {
    // 4 x 8: four blocks, one colour each.
    let colours: [[u8; 4]; 4] =
        [[255, 0, 0, 255], [0, 255, 0, 255], [0, 0, 255, 255], [255, 255, 255, 20]];
    let mut samples = Vec::new();
    for y in 0..8usize {
        for x in 0..4usize {
            samples.extend_from_slice(&colours[2 * (y / 4) + x / 2]);
        }
    }
    let frame = rgba_to_braille_colored(&Raster::from_raw(4, 8, samples).unwrap());
    assert_eq!(
        grid(&frame),
        vec![
            vec![
                Cell { glyph: '\u{28FF}', red: 255, green: 0, blue: 0 },
                Cell { glyph: '\u{28FF}', red: 0, green: 255, blue: 0 },
            ],
            vec![
                Cell { glyph: '\u{2800}', red: 0, green: 0, blue: 255 },
                Cell { glyph: '\u{2800}', red: 255, green: 255, blue: 255 },
            ],
        ]
    );
}

#[test]
fn block_outside_the_raster_is_blank_and_black() {
    let raster = solid(2, 4, [255, 255, 255, 255]);
    let blank = Cell { glyph: '\u{2800}', red: 0, green: 0, blue: 0 };
    assert_eq!(sample_block(&raster, 1, 0), blank);
    assert_eq!(sample_block(&raster, 0, 1), blank);
    assert_eq!(sample_block(&raster, u32::MAX, u32::MAX), blank);
    assert_eq!(
        sample_block(&raster, 0, 0),
        Cell { glyph: '\u{28FF}', red: 255, green: 255, blue: 255 }
    );
}
