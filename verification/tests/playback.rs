use demo_stage::model::{
    Orientation, PaneKind, RawEvent, RawMacro, RawMeta, RevealPane, ScrollDirection, Step,
};
use demo_stage::playback::{
    from_raw, is_muted, reveal_hold_ms, DEFAULT_REVEAL_HOLD_MS, DEFAULT_SCROLL_HOLD_MS,
};
use demo_stage::recording::MIN_PAD;

fn raw(events: Vec<RawEvent>) -> RawMacro {
    RawMacro {
        meta: RawMeta {
            shell: "/bin/bash".into(),
            cols: 80,
            rows: 24,
            idle_timeout_ms: 0,
            resolution: None,
            fps: None,
            stage: None,
            mute_spans: Vec::new(),
        },
        events,
    }
}

fn out(t_ms: u64, data: &str) -> RawEvent {
    RawEvent::Output { t_ms, data: data.into() }
}

fn browser(id: &str, url: &str, theme: Option<&str>) -> RevealPane {
    RevealPane {
        id: id.into(),
        url: Some(url.into()),
        theme: theme.map(|t| t.into()),
    }
}

fn reveal_at(t_ms: u64, panes: Vec<RevealPane>, orientation: Orientation, hold_ms: Option<u64>, scroll: bool) -> RawEvent {
    RawEvent::Reveal { t_ms, panes, orientation, hold_ms, scroll }
}

#[test]
fn from_raw_excises_muted_output() {
    // A `demo open` wizard span (200..900) is dropped from the playback stream,
    // but the reveal that opens at its end survives.
    let mut r = raw(vec![
        out(100, "real"),
        out(300, "demo open — reveal a browser scene"),
        out(500, "Show as: replace"),
        reveal_at(900, vec![browser("browser", "https://example.com", None)], Orientation::Horizontal, None, false),
    ]);
    r.meta.mute_spans = vec![(200, 900)];
    let p = from_raw(&r, "t");
    // Only the real output remains; the wizard chatter is gone.
    assert_eq!(p.events.len(), 1);
    assert_eq!(p.events[0].1, "real");
    // The browser scene was still built from the reveal.
    assert_eq!(p.layout.panes.len(), 2);
}

#[test]
fn from_raw_caps_idle_gaps() {
    // A 5s dead-air gap between two chunks is trimmed to the 1.2s cap.
    let r = raw(vec![out(0, "a"), out(5000, "b")]);
    let p = from_raw(&r, "t");
    assert_eq!(p.events[0].0, 0);
    assert_eq!(p.events[1].0, 1200);
}

#[test]
fn from_raw_drops_the_trailing_demo_stop() {
    // The `demo stop` the user typed (and its echo/stopping message) is gone.
    let r = raw(vec![
        out(100, "real output"),
        RawEvent::Input { t_ms: 2000, bytes: "demo stop\r".into() },
        out(2010, "demo stop"),
        out(2100, "● stopping recording…"),
    ]);
    let p = from_raw(&r, "t");
    assert_eq!(p.events.len(), 1);
    assert_eq!(p.events[0].1, "real output");
}

#[test]
fn demo_open_builds_a_browser_scene() {
    // A `demo open` reveal becomes a browser pane + a focus at its (trimmed) time.
    let r = raw(vec![
        out(0, "building..."),
        reveal_at(500, vec![browser("browser", "https://example.com", None)], Orientation::Horizontal, None, false),
    ]);
    let p = from_raw(&r, "t");
    // terminal + one browser scene pane.
    assert_eq!(p.layout.panes.len(), 2);
    let scene = &p.layout.panes[1];
    assert_eq!(scene.kind, PaneKind::Browser);
    assert_eq!(scene.url.as_deref(), Some("https://example.com"));
    // replace → full canvas (with padding).
    assert_eq!(scene.width, p.layout.width - 2 * MIN_PAD);
    // reveal focus targets the scene at t=0.5s.
    assert_eq!(p.focuses.len(), 1);
    assert_eq!(p.focuses[0].1, scene.id);
    assert_eq!(p.focuses[0].0, 500);
    assert_eq!(scene.id, "browser-r1");
}

#[test]
fn two_source_split_places_panes_and_windows_them() {
    // A horizontal terminal|browser split, then a "back to terminal" reveal.
    let r = raw(vec![
        out(0, "a"),
        reveal_at(
            1000,
            vec![RevealPane::terminal(), browser("docs", "https://d", None)],
            Orientation::Horizontal,
            None,
            false,
        ),
        reveal_at(2000, vec![RevealPane::terminal()], Orientation::Horizontal, None, false),
    ]);
    let p = from_raw(&r, "t");
    // Terminal background + exactly one browser overlay (the terminal reveal
    // adds none — it just closes the browser's window).
    assert_eq!(p.layout.panes.len(), 2);
    let docs = &p.layout.panes[1];
    // Horizontal split → right half of the canvas (with padding).
    let inner_w = p.layout.width - 2 * MIN_PAD;
    assert_eq!(docs.x, MIN_PAD + inner_w / 2);
    assert_eq!(docs.width, inner_w - inner_w / 2);
    assert_eq!(docs.height, p.layout.height - 2 * MIN_PAD);
    // Revealed at 1s, hidden again at the 2s "back to terminal" reveal.
    assert_eq!(p.windows[0], (1000, Some(2000)));
}

#[test]
fn explicit_resolution_sizes_the_canvas_and_centers_the_terminal() {
    let mut r = raw(vec![out(0, "a")]);
    r.meta.resolution = Some((1920, 1080));
    let p = from_raw(&r, "t");
    assert_eq!((p.layout.width, p.layout.height), (1920, 1080));
    // The 80×24 grid renders at 800×480 px, centered on the canvas with padding.
    let term = &p.layout.panes[0];
    assert_eq!((term.width, term.height), (800, 480));
    let expected_x = MIN_PAD + (1920 - 800 - 2 * MIN_PAD) / 2;
    let expected_y = MIN_PAD + (1080 - 480 - 2 * MIN_PAD) / 2;
    assert_eq!((term.x, term.y), (expected_x, expected_y));
}

#[test]
fn resolution_never_crops_the_terminal() {
    // A resolution smaller than the recorded grid is raised to fit it.
    let mut r = raw(vec![out(0, "a")]);
    r.meta.resolution = Some((100, 100));
    let p = from_raw(&r, "t");
    assert_eq!((p.layout.width, p.layout.height), (800, 480));
    // Terminal fills the canvas (resolution raised to fit), but with minimum padding.
    assert_eq!((p.layout.panes[0].x, p.layout.panes[0].y), (MIN_PAD, MIN_PAD));
}

#[test]
fn capture_fps_threads_into_the_layout() {
    // A 24 fps choice at capture reaches the score's [layout] fps.
    let mut r = raw(vec![out(0, "a")]);
    r.meta.fps = Some(24);
    let p = from_raw(&r, "t");
    assert_eq!(p.layout.fps, 24);
}

#[test]
fn layout_fps_defaults_to_15_when_unset() {
    let r = raw(vec![out(0, "a")]);
    let p = from_raw(&r, "t");
    assert_eq!(p.layout.fps, 15);
}

#[test]
fn vertical_split_stacks_the_browser_pane() {
    let r = raw(vec![reveal_at(
        0,
        vec![RevealPane::terminal(), browser("docs", "https://d", None)],
        Orientation::Vertical,
        None,
        false,
    )]);
    let p = from_raw(&r, "t");
    let docs = &p.layout.panes[1];
    // Vertical split → bottom half (with padding).
    let inner_h = p.layout.height - 2 * MIN_PAD;
    assert_eq!(docs.x, MIN_PAD);
    assert_eq!(docs.y, MIN_PAD + inner_h / 2);
    assert_eq!(docs.width, p.layout.width - 2 * MIN_PAD);
}

#[test]
fn reveal_theme_threads_into_the_browser_pane() {
    let r = raw(vec![reveal_at(
        100,
        vec![browser("browser", "https://github.com/x", Some("dark"))],
        Orientation::Horizontal,
        None,
        false,
    )]);
    let p = from_raw(&r, "t");
    let scene = &p.layout.panes[1];
    assert_eq!(scene.theme.as_deref(), Some("dark"));
}

#[test]
fn scrolling_reveal_holds_and_emits_a_scroll_step() {
    // A scrolling reveal near the end keeps the scene on screen for its hold
    // window and adds a focus+scroll step so the stage captures keyframes.
    let r = raw(vec![
        out(0, "done"),
        reveal_at(100, vec![browser("browser", "https://example.com", None)], Orientation::Horizontal, Some(5000), true),
    ]);
    let p = from_raw(&r, "t");
    // reveal at ~0.1s + 5s hold → duration is at least ~5.1s (vs ~1.9s tail).
    assert!(p.duration_ms >= 5000, "duration={}", p.duration_ms);
    assert_eq!(p.duration_ms, 5100);
    // one focus + one scroll step for the scene.
    assert!(matches!(p.timeline.first(), Some(Step::Focus { .. })));
    assert!(matches!(
        p.timeline.get(1),
        Some(Step::Scroll {
            direction: ScrollDirection::Down,
            duration_ms: 5000,
            ..
        })
    ));
}

#[test]
fn reveal_hold_ms_explicit() {
    assert_eq!(reveal_hold_ms(Some(3000), false) as f64, 3000.0);
    assert_eq!(reveal_hold_ms(Some(0), false) as f64, 0.0);
}

#[test]
fn reveal_hold_ms_scroll_default() {
    assert_eq!(reveal_hold_ms(None, true), DEFAULT_SCROLL_HOLD_MS);
}

#[test]
fn reveal_hold_ms_no_scroll_default() {
    assert_eq!(reveal_hold_ms(None, false), DEFAULT_REVEAL_HOLD_MS);
}

#[test]
fn reveal_hold_ms_large_explicit() {
    assert_eq!(reveal_hold_ms(Some(60000), false) as f64, 60000.0);
}

#[test]
fn a_tail_holds_the_last_frame_and_spans_are_half_open() {
    let p = from_raw(&raw(vec![out(300, "x")]), "demo");
    assert_eq!(p.events[0].0, 300);
    assert_eq!(p.duration_ms, 2100);
    assert_eq!(p.title, "demo");
    assert!(is_muted(&[(200, 900)], 200));
    assert!(!is_muted(&[(200, 900)], 900));
}
