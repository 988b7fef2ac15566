use demo_stage::model::{Orientation, RawEvent, RevealPane};
use demo_stage::reveals::{cue_matches, drain_remaining_reveals, Reveal};

#[test]
fn cue_matches_plain_substring() {
    assert!(cue_matches("Report generated successfully.", "Report"));
    assert!(!cue_matches("Report generated", "Error"));
}

#[test]
fn cue_matches_regex_with_prefix() {
    assert!(cue_matches("done in 123ms", "re:\\d+ms"));
    assert!(!cue_matches("no numbers", "re:\\d+ms"));
    assert!(!cue_matches("anything", "re:[invalid"));
}

#[test]
fn cue_matches_empty_pattern() {
    assert!(cue_matches("anything", ""));
}

#[test]
fn cue_matches_regex_prefix() {
    assert!(cue_matches("done in 123ms", "re:\\d+ms"));
    assert!(!cue_matches("no numbers", "re:\\d+ms"));
}

#[test]
fn cue_matches_regex_invalid_is_ignored() {
    // Invalid regex should not match
    assert!(!cue_matches("anything", "re:[invalid"));
}

#[test]
fn cue_matches_substring() {
    assert!(cue_matches("Report generated successfully.", "Report"));
    assert!(!cue_matches("Report generated", "Error"));
}

#[test]
fn cue_matches_regex_pattern() {
    assert!(cue_matches("done in 123ms", "re:\\d+ms"));
    assert!(!cue_matches("no numbers", "re:\\d+ms"));
}

#[test]
fn cue_matches_plain_substring_long() {
    assert!(cue_matches("Report generated successfully.", "Report"));
    assert!(!cue_matches("Report generated", "Error"));
}

#[test]
fn cue_matches_empty_pattern_matches_anything() {
    assert!(cue_matches("anything", ""));
}

#[test]
fn reveal_summary_format() {
    let r = Reveal {
        panes: vec![
            RevealPane {
                id: "main".into(),
                url: None,
                theme: None,
            },
            RevealPane {
                id: "docs".into(),
                url: Some("http://x.com".into()),
                theme: None,
            },
        ],
        orientation: Orientation::Vertical,
        hold_ms: None,
        scroll: false,
    };
    let s = r.summary();
    assert!(s.contains("main"));
    assert!(s.contains("docs"));
    assert!(s.contains("Vertical"));
}

#[test]
fn reveal_to_event_produces_correct_timestamp() {
    let r = Reveal {
        panes: vec![RevealPane::terminal()],
        orientation: Orientation::Horizontal,
        hold_ms: Some(5000),
        scroll: true,
    };
    let ev = r.to_event(1234);
    match ev {
        RawEvent::Reveal {
            t_ms,
            panes,
            orientation,
            hold_ms,
            scroll,
        } => {
            assert_eq!(t_ms, 1234);
            assert_eq!(panes.len(), 1);
            assert_eq!(orientation, Orientation::Horizontal);
            assert_eq!(hold_ms, Some(5000));
            assert!(scroll);
        }
        _ => panic!("expected Reveal event"),
    }
}

#[test]
fn reveal_summary_with_theme() {
    let r = Reveal {
        panes: vec![RevealPane {
            id: "web".into(),
            url: Some("https://x.com".into()),
            theme: Some("dark".into()),
        }],
        orientation: Orientation::Horizontal,
        hold_ms: Some(3000),
        scroll: false,
    };
    let s = r.summary();
    assert!(s.contains("web"));
    assert!(s.contains("Horizontal"));
}

#[test]
fn reveal_to_event_with_scroll_false() {
    let r = Reveal {
        panes: vec![RevealPane::terminal()],
        orientation: Orientation::Horizontal,
        hold_ms: None,
        scroll: false,
    };
    let ev = r.to_event(500);
    if let RawEvent::Reveal { scroll, .. } = ev {
        assert!(!scroll);
    } else {
        panic!("expected Reveal");
    }
}

#[test]
fn reveal_to_event_with_hold_none() {
    let r = Reveal {
        panes: vec![RevealPane::terminal()],
        orientation: Orientation::Vertical,
        hold_ms: None,
        scroll: false,
    };
    let ev = r.to_event(100);
    if let RawEvent::Reveal { hold_ms, .. } = ev {
        assert_eq!(hold_ms, None);
    } else {
        panic!("expected Reveal");
    }
}

#[test]
fn drain_remaining_reveals_emits_after_queue_as_events() {
    let mut after: Vec<Reveal> = vec![test_reveal()];
    let mut pending: Vec<(Reveal, String)> = Vec::new();
    let mut events = Vec::new();

    let summary = drain_remaining_reveals(&mut after, &mut pending, &mut events, 9999);

    assert_eq!(summary.after_summaries.len(), 1);
    assert!(summary.when_unmatched.is_empty());
    assert_eq!(events.len(), 1);
    assert!(after.is_empty());
    match &events[0] {
        RawEvent::Reveal { t_ms, .. } => assert_eq!(*t_ms, 9999),
        other => panic!("expected Reveal, got {other:?}"),
    }
}

#[test]
fn drain_remaining_reveals_reports_unmatched_when_cues() {
    let mut after: Vec<Reveal> = Vec::new();
    let mut pending: Vec<(Reveal, String)> = vec![(
        test_reveal(),
        "never-gonna-appear".into(),
    )];
    let mut events = Vec::new();

    let summary = drain_remaining_reveals(&mut after, &mut pending, &mut events, 5000);

    assert_eq!(summary.after_summaries.len(), 0);
    assert_eq!(
        summary.when_unmatched,
        vec!["never-gonna-appear".to_string()]
    );
    assert_eq!(events.len(), 1);
    assert!(pending.is_empty());
}

#[test]
fn drain_remaining_reveals_handles_both_queues_at_once() {
    let mut after: Vec<Reveal> = vec![test_reveal()];
    let mut pending: Vec<(Reveal, String)> = vec![
        (test_reveal(), "cue-alpha".into()),
        (test_reveal(), "re:cue-beta".into()),
    ];
    let mut events = Vec::new();

    let summary = drain_remaining_reveals(&mut after, &mut pending, &mut events, 1000);

    assert_eq!(summary.after_summaries.len(), 1);
    assert_eq!(summary.when_unmatched.len(), 2);
    assert_eq!(events.len(), 3);
    assert!(after.is_empty());
    assert!(pending.is_empty());
}

fn test_reveal() -> Reveal {
    Reveal {
        panes: vec![RevealPane {
            id: "main".into(),
            url: Some("http://example.com".into()),
            theme: None,
        }],
        orientation: Orientation::Horizontal,
        hold_ms: None,
        scroll: false,
    }
}
