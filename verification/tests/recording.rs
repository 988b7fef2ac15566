use demo_stage::model::{Orientation, PaneKind, RawEvent, RawMacro, RawMeta};
use demo_stage::model::Step;
use demo_stage::recording::{
    cast_grid, default_score, pane_rects, score_with_layout, stop_cutoff_ms, CELL_H, CELL_W, MIN_PAD,
};

fn raw(events: Vec<RawEvent>) -> RawMacro {
    RawMacro {
        meta: RawMeta {
            shell: "/bin/bash".into(),
            cols: 80,
            rows: 24,
            idle_timeout_ms: 0,
            resolution: None,
            fps: None,
            stage: None,
            mute_spans: Vec::new(),
        },
        events,
    }
}

#[test]
fn pane_rects_zero_count() {
    let rects = pane_rects(1000, 500, 0, Orientation::Horizontal);
    assert_eq!(rects.len(), 1);
    assert_eq!(rects[0].0, MIN_PAD);
    assert_eq!(rects[0].1, MIN_PAD);
}

#[test]
fn pane_rects_one_count() {
    let rects = pane_rects(1000, 500, 1, Orientation::Vertical);
    assert_eq!(rects.len(), 1);
}

#[test]
fn pane_rects_two_horizontal() {
    let rects = pane_rects(1000, 500, 2, Orientation::Horizontal);
    assert_eq!(rects.len(), 2);
    // Left pane starts at MIN_PAD
    assert_eq!(rects[0].0, MIN_PAD);
    // Right pane starts after left
    assert!(rects[1].0 > rects[0].0);
    // Both have same height
    assert_eq!(rects[0].3, rects[1].3);
}

#[test]
fn pane_rects_two_vertical() {
    let rects = pane_rects(1000, 500, 2, Orientation::Vertical);
    assert_eq!(rects.len(), 2);
    // Top pane
    assert_eq!(rects[0].1, MIN_PAD);
    // Bottom pane starts after top
    assert!(rects[1].1 > rects[0].1);
    // Both have same width
    assert_eq!(rects[0].2, rects[1].2);
}

#[test]
fn stop_cutoff_ms_finds_demo_stop() {
    let r = raw(vec![
        RawEvent::Output {
            t_ms: 100,
            data: "hello".into(),
        },
        RawEvent::Input {
            t_ms: 2000,
            bytes: "demo stop\r".into(),
        },
        RawEvent::Output {
            t_ms: 2010,
            data: "stopping".into(),
        },
    ]);
    let cutoff = stop_cutoff_ms(&r);
    assert!(cutoff.is_some());
    assert_eq!(cutoff.unwrap(), 2000);
}

#[test]
fn stop_cutoff_ms_no_stop() {
    let r = raw(vec![RawEvent::Output {
        t_ms: 100,
        data: "hello".into(),
    }]);
    assert!(stop_cutoff_ms(&r).is_none());
}

#[test]
fn default_score_single_terminal() {
    let score = default_score("test", 80, 24);
    assert_eq!(score.demo.name, "test");
    assert_eq!(score.layout.panes.len(), 1);
    assert_eq!(score.layout.panes[0].kind, PaneKind::Terminal);
}

#[test]
fn default_score_canvas_dimensions() {
    let score = default_score("test", 80, 24);
    assert_eq!(score.layout.width, 80 * CELL_W);
    assert_eq!(score.layout.height, 24 * CELL_H);
}

#[test]
fn default_score_fps() {
    let score = default_score("test", 80, 24);
    assert_eq!(score.layout.fps, 15);
}

#[test]
fn stop_cutoff_ms_stop_with_newline() {
    let r = raw(vec![RawEvent::Input {
        t_ms: 500,
        bytes: "demo stop\n".into(),
    }]);
    let cutoff = stop_cutoff_ms(&r);
    assert_eq!(cutoff, Some(500));
}

#[test]
fn stop_cutoff_ms_stop_among_other_commands() {
    let r = raw(vec![
        RawEvent::Input {
            t_ms: 100,
            bytes: "ls\n".into(),
        },
        RawEvent::Input {
            t_ms: 500,
            bytes: "demo stop\r".into(),
        },
    ]);
    let cutoff = stop_cutoff_ms(&r);
    assert_eq!(cutoff, Some(500));
}

#[test]
fn pane_rects_large_canvas() {
    let rects = pane_rects(1920, 1080, 2, Orientation::Horizontal);
    assert_eq!(rects.len(), 2);
    // Inner width = 1920 - 2*32 = 1856, half = 928
    let inner_w = 1920 - 2 * MIN_PAD;
    assert_eq!(rects[0].2, inner_w / 2);
    assert_eq!(rects[1].2, inner_w - inner_w / 2);
}

#[test]
fn default_score_different_sizes() {
    let score = default_score("small", 40, 12);
    assert_eq!(score.layout.width, 40 * CELL_W);
    assert_eq!(score.layout.height, 12 * CELL_H);
}

#[test]
fn score_with_layout_wraps_a_playback_layout() {
    let base = default_score("x", 80, 24);
    let s = score_with_layout("demo", base.layout.clone(), vec![Step::Terminate]);
    assert_eq!(s.demo.name, "demo");
    assert_eq!(s.demo.output_dir, "./dist");
    assert!(s.sources.is_empty());
    assert_eq!(s.layout.width, base.layout.width);
    assert_eq!(s.layout.panes.len(), base.layout.panes.len());
    assert!(matches!(s.timeline.as_slice(), [Step::Terminate]));
}

#[test]
fn cast_grid_falls_back_for_missing_or_zero_sides() {
    assert_eq!(cast_grid(Some(120), Some(40)), (120, 40));
    assert_eq!(cast_grid(Some(0), Some(0)), (80, 24));
    assert_eq!(cast_grid(None, Some(30)), (80, 30));
    assert_eq!(cast_grid(Some(65537), None), (1, 24));
}
