use demo_stage::model::{Orientation, RawEvent, RawMacro, RawMeta, RevealPane};
use demo_stage::reveals::Reveal;
use demo_stage::session::{
    drain_timestamp, fire_cued, parse_reveal, CaptureLog, ControlMessage, OutputTap, PaneMessage,
    TickOutcome,
};

fn pane_msg(id: Option<&str>, url: Option<&str>, theme: Option<&str>) -> PaneMessage {
    PaneMessage {
        id: id.map(|s| s.into()),
        url: url.map(|s| s.into()),
        theme: theme.map(|s| s.into()),
    }
}

fn message(cmd: &str) -> ControlMessage {
    ControlMessage {
        cmd: Some(cmd.into()),
        panes: None,
        orientation: None,
        hold: None,
        scroll: None,
        when: None,
        after: None,
    }
}

fn reveal_message(panes: Vec<PaneMessage>) -> ControlMessage {
    let mut m = message("reveal");
    m.panes = Some(panes);
    m
}

fn test_reveal() -> Reveal {
    Reveal {
        panes: vec![RevealPane {
            id: "main".into(),
            url: Some("http://example.com".into()),
            theme: None,
        }],
        orientation: Orientation::Horizontal,
        hold_ms: None,
        scroll: false,
    }
}

#[test]
fn parse_reveal_parses_json() {
    let mut m = reveal_message(vec![
        pane_msg(Some("main"), None, None),
        pane_msg(Some("web"), Some("https://x.com"), Some("dark")),
    ]);
    m.orientation = Some("vertical".into());
    m.hold = Some(3000);
    m.scroll = Some(true);
    let r = parse_reveal(&m).unwrap();
    assert_eq!(r.panes.len(), 2);
    assert_eq!(r.orientation, Orientation::Vertical);
    assert_eq!(r.hold_ms, Some(3000));
    assert!(r.scroll);
    assert_eq!(r.panes[1].theme.as_deref(), Some("dark"));
}

#[test]
fn parse_reveal_returns_none_for_empty_panes() {
    let m = reveal_message(vec![]);
    assert!(parse_reveal(&m).is_none());
}

#[test]
fn parse_reveal_empty_panes() {
    let m = reveal_message(vec![]);
    assert!(parse_reveal(&m).is_none());
}

#[test]
fn parse_reveal_missing_panes() {
    let m = message("reveal");
    assert!(parse_reveal(&m).is_none());
}

#[test]
fn parse_reveal_with_when() {
    let mut m = reveal_message(vec![pane_msg(Some("main"), None, None)]);
    m.orientation = Some("horizontal".into());
    m.when = Some("some pattern".into());
    let r = parse_reveal(&m).unwrap();
    // 'when' is not part of Reveal struct, so just verify parsing works
    assert_eq!(r.panes.len(), 1);
}

#[test]
fn parse_reveal_with_theme() {
    let mut m = reveal_message(vec![pane_msg(Some("main"), None, Some("dark"))]);
    m.orientation = Some("horizontal".into());
    let r = parse_reveal(&m).unwrap();
    assert_eq!(r.panes.len(), 1);
    assert_eq!(r.panes[0].theme.as_deref(), Some("dark"));
}

#[test]
fn parse_reveal_with_url() {
    let mut m = reveal_message(vec![pane_msg(Some("browser"), Some("https://example.com"), None)]);
    m.orientation = Some("vertical".into());
    let r = parse_reveal(&m).unwrap();
    assert_eq!(r.orientation, Orientation::Vertical);
    assert_eq!(r.panes[0].url.as_deref(), Some("https://example.com"));
}

#[test]
fn parse_reveal_defaults_missing_and_empty_fields() {
    let m = reveal_message(vec![pane_msg(None, Some(""), Some("")), pane_msg(Some(""), None, None)]);
    let r = parse_reveal(&m).unwrap();
    assert_eq!(r.panes[0].id, "main");
    assert_eq!(r.panes[0].url, None);
    assert_eq!(r.panes[0].theme, None);
    assert_eq!(r.panes[1].id, "main");
    assert_eq!(r.orientation, Orientation::Horizontal);
    assert!(!r.scroll);
}

#[test]
fn read_control_arms_after_running_when_queueing_after_reveal() {
    let mut log = CaptureLog::new();
    let mut m = reveal_message(vec![pane_msg(Some("main"), Some("http://example.com"), None)]);
    m.after = Some(true);
    let out = log.apply_control(&m, 10);
    assert!(!out.stop);
    assert!(out.armed_after);
    assert!(
        log.after_running,
        "--after must arm after_running immediately so the current command is tracked"
    );
    assert_eq!(log.after.len(), 1);
    assert!(log.events.is_empty(), "no immediate reveal");
}

#[test]
fn reveal_cancel_closes_mute_span_without_recording_reveal() {
    let mut log = CaptureLog::new();
    log.muting = true;
    log.mute_start = Some(1000);
    let out = log.apply_control(&message("reveal_cancel"), 1500);
    assert!(!out.stop);
    assert!(!log.muting, "reveal_cancel must stop muting");
    assert!(log.mute_start.is_none(), "reveal_cancel must take the mute_start");
    assert_eq!(log.mute_spans, vec![(1000, 1500)], "reveal_cancel must close the span");
    assert!(log.events.is_empty(), "reveal_cancel must not record a reveal event");
}

#[test]
fn reveal_closes_mute_span_and_records_event() {
    let mut log = CaptureLog::new();
    log.muting = true;
    log.mute_start = Some(1000);
    let m = reveal_message(vec![pane_msg(Some("main"), Some("http://example.com"), None)]);
    let out = log.apply_control(&m, 1200);
    assert!(!out.stop);
    assert!(!log.muting, "reveal must stop muting");
    assert!(log.mute_start.is_none(), "reveal must take the mute_start");
    assert_eq!(log.mute_spans.len(), 1, "reveal must close the span");
    assert_eq!(log.events.len(), 1, "reveal must record a reveal event");
    assert!(matches!(log.events[0], RawEvent::Reveal { t_ms: 1200, .. }));
}

#[test]
fn double_close_is_safe() {
    let mut log = CaptureLog::new();
    log.muting = true;
    log.mute_start = Some(1000);
    // First cancel, then reveal — both try to close the same span.
    log.apply_control(&message("reveal_cancel"), 1100);
    let m = reveal_message(vec![pane_msg(Some("main"), Some("http://example.com"), None)]);
    log.apply_control(&m, 1200);
    assert_eq!(
        log.mute_spans.len(),
        1,
        "only the first close must record a span (second finds mute_start empty)"
    );
    assert_eq!(
        log.events.len(),
        1,
        "reveal still records its event even after cancel closed the span"
    );
}

#[test]
fn safety_valve_closes_span_and_emits_diagnostic() {
    let mut log = CaptureLog::new();
    log.muting = true;
    log.mute_start = Some(500);
    let fired = log.close_stranded_mute(91_500);
    assert!(fired, "safety valve must report that it fired");
    assert!(!log.muting, "safety valve must stop muting");
    assert!(log.mute_start.is_none(), "safety valve must take the mute_start");
    assert_eq!(log.mute_spans, vec![(500, 91_500)]);
    let mut idle = CaptureLog::new();
    assert!(!idle.close_stranded_mute(1));
    assert!(idle.mute_spans.is_empty());
}

#[test]
fn begin_and_stop_messages() {
    let mut log = CaptureLog::new();
    log.apply_control(&message("reveal_begin"), 5000);
    assert!(log.muting);
    assert_eq!(log.mute_start, Some(4200));
    log.apply_control(&message("reveal_begin"), 9000);
    assert_eq!(log.mute_start, Some(4200));
    let out = log.apply_control(&message("stop"), 9500);
    assert!(out.stop);
    assert!(!log.muting);
    let out = log.apply_control(&message("something-else"), 9600);
    assert!(!out.stop && !out.armed_after);
    let mut early = CaptureLog::new();
    early.apply_control(&message("reveal_begin"), 300);
    assert_eq!(early.mute_start, Some(0));
    early.begin_command_mute(Some(7), 400);
    assert_eq!(early.mute_start, Some(0));
    early.finish(900);
    assert_eq!(early.mute_spans, vec![(0, 900)]);
    assert!(early.mute_start.is_none());
}

#[test]
fn when_cue_arms_and_fires_on_matching_output() {
    let mut log = CaptureLog::new();
    let mut m = reveal_message(vec![pane_msg(Some("docs"), Some("https://x.com"), None)]);
    m.when = Some("built".into());
    log.apply_control(&m, 100);
    assert_eq!(log.pending.len(), 1);
    let mut tap = OutputTap::new(true);
    log.on_output(&mut tap, "compiling...\r\n", 200);
    assert_eq!(log.pending.len(), 1);
    assert_eq!(log.events.len(), 1);
    log.on_output(&mut tap, "built ok\r\n", 300);
    assert!(log.pending.is_empty());
    assert_eq!(log.events.len(), 3);
    assert!(matches!(log.events[1], RawEvent::Reveal { t_ms: 300, .. }));
    assert!(matches!(&log.events[2], RawEvent::Output { t_ms: 300, data } if data == "built ok\r\n"));
}

#[test]
fn output_waits_for_the_readiness_marker_and_is_dropped_while_muted() {
    let mut log = CaptureLog::new();
    let mut tap = OutputTap::new(false);
    log.on_output(&mut tap, "PS1=...; clear\r\ndemostage_cap", 10);
    assert!(!tap.ready);
    assert!(log.events.is_empty());
    log.on_output(&mut tap, "ture_ready\r\n$ ", 20);
    assert!(tap.ready);
    assert_eq!(tap.pre, "");
    assert!(matches!(&log.events[0], RawEvent::Output { t_ms: 20, data } if data == "\r\n$ "));
    log.begin_command_mute(None, 30);
    log.on_output(&mut tap, "wizard noise", 40);
    assert_eq!(log.events.len(), 1);
    assert_eq!(tap.recent, "\r\n$ ");
}

#[test]
fn recent_output_is_dropped_past_the_limit() {
    let mut log = CaptureLog::new();
    let mut tap = OutputTap::new(true);
    let big = "x".repeat(8192);
    log.on_output(&mut tap, &big, 1);
    assert_eq!(tap.recent.len(), 8192);
    log.on_output(&mut tap, "y", 2);
    assert_eq!(tap.recent, "");
    assert_eq!(log.events.len(), 2);
}

#[test]
fn after_reveals_fire_when_the_command_finishes() {
    let mut log = CaptureLog::new();
    log.after.push(test_reveal());
    log.after.push(test_reveal());
    log.after_running = true;
    log.fire_after(700);
    assert!(!log.after_running);
    assert!(log.after.is_empty());
    assert_eq!(log.events.len(), 2);
    assert!(matches!(log.events[1], RawEvent::Reveal { t_ms: 700, .. }));
}

#[test]
fn fire_cued_keeps_unmatched_in_order() {
    let mut pending = vec![
        (test_reveal(), "alpha".to_string()),
        (test_reveal(), "beta".to_string()),
        (test_reveal(), "re:gam+a".to_string()),
    ];
    let mut events = Vec::new();
    fire_cued(&mut pending, "gammma and alpha", 5, &mut events);
    assert_eq!(events.len(), 2);
    assert_eq!(pending.len(), 1);
    assert_eq!(pending[0].1, "beta");
}

fn raw_with(events: Vec<RawEvent>) -> RawMacro {
    RawMacro {
        meta: RawMeta {
            shell: String::new(),
            cols: 0,
            rows: 0,
            idle_timeout_ms: 0,
            resolution: None,
            fps: None,
            stage: None,
            mute_spans: Vec::new(),
        },
        events,
    }
}

#[test]
fn drain_timestamp_prefers_the_stop_line() {
    let out = |t: u64| RawEvent::Output { t_ms: t, data: "x".into() };
    let raw = raw_with(vec![out(100), out(900), out(400)]);
    assert_eq!(drain_timestamp(&raw), 900);
    let raw = raw_with(vec![
        out(100),
        RawEvent::Input { t_ms: 500, bytes: "demo stop".into() },
        RawEvent::Input { t_ms: 600, bytes: "\r".into() },
        out(700),
    ]);
    assert_eq!(drain_timestamp(&raw), 499);
    assert_eq!(drain_timestamp(&raw_with(vec![])), 0);
}

#[test]
fn watchdog_fires_after_reveals_once_the_command_goes_quiet() {
    let mut log = CaptureLog::new();
    let mut m = reveal_message(vec![pane_msg(Some("docs"), Some("https://x.com"), None)]);
    m.after = Some(true);
    let out = log.apply_control(&m, 1_000);
    assert!(out.armed_after);
    let mut tap = OutputTap::new(true);
    // Output 500 ms ago: not quiet long enough.
    let t = log.watchdog_tick(&mut tap, 2_000, 1_500, 0, 2_000, 0);
    assert!(!t.fired_after);
    assert!(log.events.is_empty());
    // 900 ms of quiet: the reveal is recorded now.
    let t = log.watchdog_tick(&mut tap, 2_400, 1_500, 0, 2_400, 0);
    assert!(t.fired_after);
    assert!(!log.after_running);
    assert!(matches!(log.events[0], RawEvent::Reveal { t_ms: 2_400, .. }));
}

#[test]
fn watchdog_safety_valve_readiness_and_idle() {
    let mut log = CaptureLog::new();
    log.muting = true;
    log.mute_start = Some(500);
    let mut tap = OutputTap::new(false);
    let t = log.watchdog_tick(&mut tap, 60_500, 0, 500, 60_500, 0);
    assert_eq!(
        t,
        TickOutcome { fired_after: false, valve_closed: false, forced_ready: true, idle_stop: false }
    );
    assert!(tap.ready && log.muting);
    let t = log.watchdog_tick(&mut tap, 91_000, 0, 500, 91_000, 0);
    assert!(t.valve_closed && !t.forced_ready);
    assert!(!log.muting);
    assert_eq!(log.mute_spans, vec![(500, 91_000)]);
    let t = log.watchdog_tick(&mut tap, 100_000, 0, 0, 94_000, 5_000);
    assert!(t.idle_stop);
    let t = log.watchdog_tick(&mut tap, 100_000, 0, 0, 94_000, 0);
    assert!(!t.idle_stop);
    let mut fresh = OutputTap::new(false);
    assert!(!log.watchdog_tick(&mut fresh, 3_000, 0, 0, 3_000, 0).forced_ready);
    assert!(!fresh.ready);
}
