use demo_stage::cells::{
    blit_glyph, render_cells, resolve, CellColor, CellPaint, GlyphPaint, DEFAULT_FG,
};
use demo_stage::raster::ansi16;

#[test]
fn resolves_ansi_and_rgb() {
    assert_eq!(resolve(CellColor::Idx(1), DEFAULT_FG), ansi16(1));
    assert_eq!(resolve(CellColor::Rgb(10, 20, 30), DEFAULT_FG), [10, 20, 30]);
    assert_eq!(resolve(CellColor::Default, [1, 2, 3]), [1, 2, 3]);
}

#[test]
fn resolve_ansi_high_index() {
    // Index >= 16 goes through xterm256
    let c = resolve(CellColor::Idx(240), DEFAULT_FG);
    assert_eq!(c[0], c[1]); // greyscale = equal channels
}

#[test]
fn resolve_default_color() {
    assert_eq!(resolve(CellColor::Default, [10, 20, 30]), [10, 20, 30]);
}

#[test]
fn resolve_ansi16_colors() {
    let c = resolve(CellColor::Idx(0), [0, 0, 0]);
    assert_eq!(c, ansi16(0));
    let c = resolve(CellColor::Idx(1), [0, 0, 0]);
    assert_eq!(c, ansi16(1));
}

#[test]
fn resolve_rgb_color() {
    assert_eq!(
        resolve(CellColor::Rgb(100, 150, 200), [0, 0, 0]),
        [100, 150, 200]
    );
}

#[test]
fn blit_glyph_draws_within_bounds() {
    let mut img = vec![0u8; 20 * 20 * 4];
    let cov = vec![255u8; 8 * 12];
    blit_glyph(&mut img, 20, 20, 2, 4, 8, 12, &cov, [255, 0, 0]);
    // Some pixels should be red now
    let mut found = false;
    for y in 0..20 {
        for x in 0..20 {
            let p = (y * 20 + x) * 4;
            if img[p] == 255 && img[p + 1] == 0 && img[p + 2] == 0 {
                found = true;
                break;
            }
        }
        if found {
            break;
        }
    }
    assert!(found, "blit_glyph should draw red pixels");
}

#[test]
fn blit_glyph_clips_at_top() {
    let mut img_clipped = vec![0u8; 20 * 20 * 4];
    let mut img_full = vec![0u8; 20 * 20 * 4];
    let cov = vec![255u8; 4 * 8];
    // top = -4 clips the top half of the glyph
    blit_glyph(&mut img_clipped, 20, 20, 0, -4, 4, 8, &cov, [0, 255, 0]);
    // top = 0 draws the full glyph
    blit_glyph(&mut img_full, 20, 20, 0, 0, 4, 8, &cov, [0, 255, 0]);
    let clipped_pixels: usize = img_clipped.chunks(4).filter(|p| p[1] == 255).count();
    let full_pixels: usize = img_full.chunks(4).filter(|p| p[1] == 255).count();
    assert!(
        clipped_pixels < full_pixels,
        "clipped glyph should have fewer green pixels"
    );
    assert_eq!(clipped_pixels, 16);
    assert_eq!(full_pixels, 32);
}

#[test]
fn blit_glyph_clips_at_right() {
    let mut img = vec![0u8; 10 * 10 * 4];
    let cov = vec![255u8; 8 * 4];
    // ox = 6, so pixels 6..14 would go out of bounds (w=10)
    blit_glyph(&mut img, 10, 10, 6, 0, 8, 4, &cov, [0, 0, 255]);
    // Column 9 should have blue, columns 10+ should be untouched
    for y in 0..4 {
        let p = (y * 10 + 9) * 4;
        assert_eq!(img[p + 2], 255, "rightmost column should be blue");
    }
}

#[test]
fn blit_glyph_zero_coverage_does_nothing() {
    let mut img = vec![128u8; 10 * 10 * 4];
    let cov = vec![0u8; 4 * 4]; // all zeros
    blit_glyph(&mut img, 10, 10, 0, 0, 4, 4, &cov, [255, 255, 255]);
    // Nothing should change
    assert!(img.iter().all(|&p| p == 128));
}

#[test]
fn blit_glyph_blends_partial_coverage() {
    let mut img = vec![100u8; 2 * 1 * 4];
    blit_glyph(&mut img, 2, 1, 1, 0, 1, 1, &[51], [200, 0, 255]);
    // (200 * 51 + 100 * 204) / 255 = 120; (0 + 100 * 204) / 255 = 80; (255 * 51 + 20400) / 255 = 131
    assert_eq!(&img[4..8], &[120, 80, 131, 100]);
    assert_eq!(&img[0..4], &[100, 100, 100, 100]);
}

#[test]
fn render_cells_empty_screen() {
    let cells: Vec<CellPaint> = (0..8)
        .map(|_| CellPaint { bg: CellColor::Default, fg: CellColor::Default, glyph: None })
        .collect();
    let frame = render_cells(&cells, 4, 2, 10, 19, 15, [11, 15, 20]);
    assert_eq!(frame.len(), 4 * 10 * 2 * 19 * 4);
    // Every pixel is the opaque default background.
    for px in frame.chunks(4) {
        assert_eq!(px, &[11, 15, 20, 255]);
    }
}

#[test]
fn render_cells_with_text() {
    // A 2×1 screen: a red solid block, then a font glyph on a blue background.
    let cells = vec![
        CellPaint {
            bg: CellColor::Default,
            fg: CellColor::Rgb(255, 0, 0),
            glyph: Some(GlyphPaint::Solid(vec![255u8; 4 * 4])),
        },
        CellPaint {
            bg: CellColor::Rgb(0, 0, 255),
            fg: CellColor::Default,
            glyph: Some(GlyphPaint::Font { width: 2, height: 2, ymin: 0, cov: vec![255u8; 4] }),
        },
    ];
    let frame = render_cells(&cells, 2, 1, 4, 4, 3, [0, 0, 0]);
    assert!(!frame.is_empty());
    let px = |x: usize, y: usize| &frame[(y * 8 + x) * 4..(y * 8 + x) * 4 + 4];
    assert_eq!(px(0, 0), &[255, 0, 0, 255]);
    // Glyph centred: ox = 4 + (4 - 2) / 2 = 5; top = 0 + 3 - (2 + 0) = 1.
    assert_eq!(px(5, 1), &[200, 200, 200, 255]);
    assert_eq!(px(6, 2), &[200, 200, 200, 255]);
    assert_eq!(px(4, 1), &[0, 0, 255, 255]);
    assert_eq!(px(5, 0), &[0, 0, 255, 255]);
    assert_eq!(px(5, 3), &[0, 0, 255, 255]);
}
