use demo_stage::model::{
    DemoMeta, Layout, Pane, PaneKind, Score, ScrollDirection, Step, Velocity,
};
use demo_stage::recording::needs_stage;
use demo_stage::stage::{scroll_keyframes_for, scroll_params_for, stage_backdrop, stage_terminal_pane};

fn pane(id: &str, kind: PaneKind, x: u32, w: u32, h: u32, url: Option<&str>) -> Pane {
    Pane {
        id: id.into(),
        kind,
        x,
        y: 0,
        width: w,
        height: h,
        font_family: None,
        font_size: None,
        url: url.map(|u| u.into()),
        theme: None,
        ignore_speed: false,
    }
}

fn score(width: u32, height: u32, panes: Vec<Pane>, timeline: Vec<Step>) -> Score {
    Score {
        demo: DemoMeta {
            name: "t".into(),
            output_dir: "./dist".into(),
            prompt: None,
            speed: None,
            targets: None,
        },
        sources: vec![],
        layout: Layout {
            width,
            height,
            fps: 15,
            background: None,
            font_family: None,
            font_size: None,
            panes,
        },
        timeline,
    }
}

fn scroll(direction: ScrollDirection, velocity: Velocity, duration_ms: u64, pane: Option<&str>) -> Step {
    Step::Scroll {
        direction,
        velocity,
        duration_ms,
        pane: pane.map(|p| p.into()),
    }
}

fn focused_browser_score() -> Score {
    score(
        200,
        100,
        vec![
            pane("c", PaneKind::Terminal, 0, 100, 100, None),
            pane("p", PaneKind::Browser, 100, 100, 100, Some("file:///x.pdf")),
        ],
        vec![
            Step::Focus { pane: Some("p".into()) },
            scroll(ScrollDirection::Down, Velocity::Constant, 2100, None),
        ],
    )
}

fn single_terminal() -> Score {
    score(100, 100, vec![pane("c", PaneKind::Terminal, 0, 100, 100, None)], vec![])
}

#[test]
fn detects_when_a_stage_is_needed() {
    let single = single_terminal();
    assert!(!needs_stage(&single));
    let multi = score(
        200,
        100,
        vec![
            pane("c", PaneKind::Terminal, 0, 100, 100, None),
            pane("p", PaneKind::Browser, 100, 100, 100, Some("file:///x.pdf")),
        ],
        vec![],
    );
    assert!(needs_stage(&multi));
    // A terminal centered on a larger canvas (explicit export resolution)
    // needs compositing even without browser panes.
    let mut main = pane("main", PaneKind::Terminal, 560, 800, 480, None);
    main.y = 300;
    let centered = score(1920, 1080, vec![main], vec![]);
    assert!(needs_stage(&centered));
}

#[test]
fn scroll_params_found_for_the_focused_browser() {
    let s = focused_browser_score();
    assert!(scroll_params_for(&s, "p").is_some());
    assert!(scroll_params_for(&s, "c").is_none());
}

#[test]
fn counts_scroll_keyframes_for_the_focused_browser() {
    let s = focused_browser_score();
    // 2100ms / 700 = 3 keyframes for "p", none for "c".
    assert_eq!(scroll_keyframes_for(&s, "p"), 3);
    assert_eq!(scroll_keyframes_for(&s, "c"), 0);
}

#[test]
fn needs_stage_false_for_single_fullscreen_terminal() {
    let s = single_terminal();
    assert!(!needs_stage(&s));
}

#[test]
fn needs_stage_true_for_browser_pane() {
    let s = score(
        200,
        100,
        vec![
            pane("c", PaneKind::Terminal, 0, 200, 100, None),
            pane("b", PaneKind::Browser, 0, 200, 100, Some("https://x.com")),
        ],
        vec![],
    );
    assert!(needs_stage(&s));
}

#[test]
fn needs_stage_true_for_offset_terminal() {
    let s = score(200, 100, vec![pane("c", PaneKind::Terminal, 50, 100, 100, None)], vec![]);
    assert!(needs_stage(&s));
}

#[test]
fn needs_stage_true_for_multiple_terminals() {
    let s = score(
        200,
        100,
        vec![
            pane("c1", PaneKind::Terminal, 0, 100, 100, None),
            pane("c2", PaneKind::Terminal, 100, 100, 100, None),
        ],
        vec![],
    );
    assert!(needs_stage(&s));
}

#[test]
fn scroll_params_none_when_no_scroll() {
    let s = single_terminal();
    assert!(scroll_params_for(&s, "c").is_none());
}

#[test]
fn scroll_keyframes_for_zero_when_no_scroll() {
    let s = single_terminal();
    assert_eq!(scroll_keyframes_for(&s, "c"), 0);
}

#[test]
fn scroll_params_some_when_scroll_steps_present() {
    let mut s = single_terminal();
    s.timeline.push(scroll(ScrollDirection::Down, Velocity::Constant, 7000, Some("c")));
    assert!(scroll_params_for(&s, "c").is_some());
}

#[test]
fn scroll_keyframes_for_capped_at_16() {
    let mut s = single_terminal();
    for _ in 0..20 {
        s.timeline.push(scroll(ScrollDirection::Down, Velocity::Constant, 7000, Some("c")));
    }
    assert_eq!(scroll_keyframes_for(&s, "c"), 16);
}

#[test]
fn scroll_params_for_picks_first_scroll_step() {
    let s = score(
        100,
        100,
        vec![pane("b", PaneKind::Browser, 0, 100, 100, Some("file:///x.pdf"))],
        vec![
            scroll(ScrollDirection::Up, Velocity::EaseInOut, 1000, Some("b")),
            scroll(ScrollDirection::Down, Velocity::Constant, 1000, Some("b")),
        ],
    );
    let params = scroll_params_for(&s, "b").expect("should have scroll params");
    assert_eq!(params.direction, ScrollDirection::Up);
    assert_eq!(params.velocity, Velocity::EaseInOut);
    assert_eq!(params.ignored_count, 1);
    assert_eq!(params.duration_ms, 1000);
}

#[test]
fn a_scroll_follows_the_focus_until_it_moves() {
    let s = score(
        100,
        100,
        vec![],
        vec![
            Step::Focus { pane: Some("a".into()) },
            scroll(ScrollDirection::Down, Velocity::Constant, 1400, None),
            Step::Focus { pane: Some("b".into()) },
            scroll(ScrollDirection::Down, Velocity::Constant, 700, None),
            scroll(ScrollDirection::Up, Velocity::Constant, 700, Some("a")),
        ],
    );
    assert_eq!(scroll_keyframes_for(&s, "a"), 3);
    assert_eq!(scroll_keyframes_for(&s, "b"), 1);
    assert_eq!(scroll_params_for(&s, "a").unwrap().ignored_count, 1);
}

#[test]
fn stage_plays_the_first_terminal_pane() {
    let s = score(
        200,
        100,
        vec![
            pane("web", PaneKind::Browser, 0, 100, 100, Some("https://x.com")),
            pane("main", PaneKind::Terminal, 100, 100, 100, None),
            pane("second", PaneKind::Terminal, 0, 100, 100, None),
        ],
        vec![],
    );
    assert_eq!(stage_terminal_pane(&s).unwrap().id, "main");
    let only_web = score(
        100,
        100,
        vec![pane("web", PaneKind::Browser, 0, 100, 100, Some("https://x.com"))],
        vec![],
    );
    assert_eq!(
        stage_terminal_pane(&only_web).unwrap_err().message(),
        "a multi-scene stage needs a terminal pane"
    );
}

#[test]
fn stage_backdrop_defaults_when_missing_or_invalid() {
    let mut s = single_terminal();
    assert_eq!(stage_backdrop(&s), [11, 15, 20]);
    s.layout.background = Some("#ff8000".into());
    assert_eq!(stage_backdrop(&s), [255, 128, 0]);
    s.layout.background = Some("orange".into());
    assert_eq!(stage_backdrop(&s), [11, 15, 20]);
}
