use demo_stage::gif::{crop_rgba, diff_rect, DelayClock};

#[test]
fn diff_rect_finds_the_changed_region() {
    // 4×3 canvas; change pixels (1,1) and (2,2).
    let w = 4;
    let prev = vec![0u8; w * 3 * 4];
    let mut cur = prev.clone();
    cur[(w + 1) * 4] = 255; // (1,1)
    cur[(2 * w + 2) * 4] = 255; // (2,2)
    assert_eq!(diff_rect(&prev, &cur, w), Some((1, 1, 3, 3)));
    assert_eq!(diff_rect(&prev, &prev, w), None);
}

#[test]
fn crop_extracts_the_subrect() {
    // 3×2 canvas with pixel values = index.
    let w = 3;
    let rgba: Vec<u8> = (0..w * 2 * 4).map(|i| i as u8).collect();
    let out = crop_rgba(&rgba, w, 1, 1, 3, 2);
    // Row 1, pixels 1..3 → bytes 16..24.
    assert_eq!(out, (16..24).map(|i| i as u8).collect::<Vec<_>>());
}

#[test]
fn diff_rect_identical_frames() {
    let w = 4;
    let frame = vec![128u8; w * 3 * 4];
    assert_eq!(diff_rect(&frame, &frame, w), None);
}

#[test]
fn diff_rect_single_pixel_change() {
    let w = 2;
    let prev = vec![0u8; w * 2 * 4];
    let mut cur = prev.clone();
    cur[0] = 255; // (0,0)
    assert_eq!(diff_rect(&prev, &cur, w), Some((0, 0, 1, 1)));
}

#[test]
fn diff_rect_full_width_change() {
    let w = 3;
    let prev = vec![0u8; w * 1 * 4];
    let mut cur = prev.clone();
    // Change all pixels in row 0
    for i in 0..w {
        cur[i * 4] = 255;
    }
    assert_eq!(diff_rect(&prev, &cur, w), Some((0, 0, 3, 1)));
}

#[test]
fn crop_rgba_full_canvas() {
    let w = 2;
    let rgba: Vec<u8> = (0..w * 2 * 4).map(|i| i as u8).collect();
    let out = crop_rgba(&rgba, w, 0, 0, w, 2);
    assert_eq!(out, rgba);
}

#[test]
fn crop_rgba_single_pixel() {
    let w = 3;
    let rgba: Vec<u8> = (0..w * 2 * 4).map(|i| i as u8).collect();
    let out = crop_rgba(&rgba, w, 1, 1, 2, 2);
    // Row 1, pixel 1 → bytes 16..20
    assert_eq!(out, vec![16, 17, 18, 19]);
}

#[test]
fn delay_clock_matches_the_fps_on_average() {
    // 15 fps → 6.67 cs/frame; 15 frames must span 100 cs, not 105.
    let mut c = DelayClock::new(15);
    let total: u64 = (0..15).map(|_| c.delay(1) as u64).sum();
    assert_eq!(total, 100);
    // A held frame spanning 30 source frames is exactly 2 s.
    let mut c = DelayClock::new(15);
    assert_eq!(c.delay(30), 200);
}

#[test]
fn delay_clock_single_frame() {
    let mut c = DelayClock::new(10);
    assert_eq!(c.delay(1), 10);
}

#[test]
fn delay_clock_zero_fps_uses_one() {
    // fps=0 should be treated as fps=1
    let mut c = DelayClock::new(0);
    let d = c.delay(1);
    assert!(d > 0);
}

#[test]
fn delay_clock_rounds_and_clamps() {
    // 30 fps: 3.33 cs a frame, written as 3, 4, 3 (10 cs over 3 frames).
    let mut c = DelayClock::new(30);
    assert_eq!((c.delay(1), c.delay(1), c.delay(1)), (3, 4, 3));
    // 100 fps: 1 cs a frame is clamped to the 2 cs floor, then the clock
    // catches up by clamping again rather than going negative.
    let mut c = DelayClock::new(100);
    assert_eq!(c.delay(1), 2);
    assert_eq!(c.delay(1), 2);
    assert_eq!(c.delay(4), 2);
    // 1 fps, a very long hold: capped at the 16-bit field.
    let mut c = DelayClock::new(1);
    assert_eq!(c.delay(1000), 0xffff);
}
