use demo_stage::model::{ScrollDirection, Velocity};
use demo_stage::pdf::{rest_offset, PdfScene, BACKDROP};

fn scene(doc_w: usize, doc_h: usize, width: usize, height: usize) -> PdfScene {
    // Each document pixel holds its row number in every colour channel.
    let mut doc = Vec::new();
    for y in 0..doc_h {
        for _ in 0..doc_w {
            doc.extend_from_slice(&[y as u8, y as u8, y as u8, 255]);
        }
    }
    PdfScene {
        width,
        height,
        doc,
        doc_w,
        doc_h,
        max_off: doc_h.saturating_sub(height),
        output_frames: 10,
        lead_in: 2,
        direction: ScrollDirection::Down,
        velocity: Velocity::Constant,
        cached_frame: Vec::new(),
        cached_offset: None,
    }
}

#[test]
fn slice_at_cuts_the_window_at_the_offset() {
    let s = scene(3, 10, 3, 4);
    let out = s.slice_at(5);
    assert_eq!(out.len(), 3 * 4 * 4);
    for y in 0..4 {
        for x in 0..3 {
            let p = (y * 3 + x) * 4;
            assert_eq!(out[p], (5 + y) as u8);
        }
    }
    assert_eq!((s.width(), s.height()), (3, 4));
}

#[test]
fn slice_past_the_document_shows_the_backdrop() {
    let s = scene(2, 5, 3, 4);
    let out = s.slice_at(3);
    // Rows 0..2 come from document rows 3 and 4; the third column and the
    // rows past the document are backdrop.
    assert_eq!(&out[0..4], &[3, 3, 3, 255]);
    assert_eq!(&out[8..12], &BACKDROP);
    assert_eq!(&out[(3 * 3) * 4..(3 * 3) * 4 + 4], &[4, 4, 4, 255]);
    for p in (2 * 3)..(4 * 3) {
        assert_eq!(&out[p * 4..p * 4 + 4], &BACKDROP);
    }
    let far = s.slice_at(100);
    assert!(far.chunks(4).all(|px| px == BACKDROP));
}

#[test]
fn ensure_frame_caches_the_window() {
    let mut s = scene(3, 10, 3, 4);
    s.ensure_frame(2);
    assert_eq!(s.cached_offset, Some(2));
    assert_eq!(s.cached_frame, s.slice_at(2));
    s.ensure_frame(2);
    assert_eq!(s.cached_offset, Some(2));
    s.ensure_frame(6);
    assert_eq!(s.cached_frame[0], 6);
}

#[test]
fn max_off_zero_yields_static() {
    for i in 0..10 {
        assert_eq!(rest_offset(i, 2, 10, 0, ScrollDirection::Down), Some(0));
    }
}

#[test]
fn single_frame_no_panic() {
    assert_eq!(rest_offset(0, 0, 1, 500, ScrollDirection::Down), Some(0));
}

#[test]
fn rest_offset_holds_during_lead_in_and_after_the_pan() {
    // 20 frames, 3 of lead-in: frames 0..3 at the start, 19 at the end.
    assert_eq!(rest_offset(0, 3, 20, 500, ScrollDirection::Down), Some(0));
    assert_eq!(rest_offset(2, 3, 20, 500, ScrollDirection::Down), Some(0));
    assert_eq!(rest_offset(3, 3, 20, 500, ScrollDirection::Down), None);
    assert_eq!(rest_offset(18, 3, 20, 500, ScrollDirection::Down), None);
    assert_eq!(rest_offset(19, 3, 20, 500, ScrollDirection::Down), Some(500));
    assert_eq!(rest_offset(0, 3, 20, 500, ScrollDirection::Up), Some(500));
    assert_eq!(rest_offset(19, 3, 20, 500, ScrollDirection::Up), Some(0));
    // A pan of one frame never moves.
    assert_eq!(rest_offset(5, 4, 5, 500, ScrollDirection::Up), Some(500));
}
