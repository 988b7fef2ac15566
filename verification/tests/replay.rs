use demo_stage::model::{DemoMeta, Layout, Pane, PaneKind, Score, Step};
use demo_stage::replay::{
    anchor_browser_windows, anchor_window, finish_run, prompt_line, prompt_var, pty_grid,
    recent_contains, run_prompt, secret_needs_wait, secret_prompts, single_terminal_pane,
    step_action, StepAction, RECENT_CHUNKS, WAIT_FOR_TIMEOUT_MS,
};
use demo_stage::shell::secret_needle;

fn pane(id: &str, kind: PaneKind, width: u32, height: u32) -> Pane {
    Pane {
        id: id.into(),
        kind,
        x: 0,
        y: 0,
        width,
        height,
        font_family: None,
        font_size: None,
        url: None,
        theme: None,
        ignore_speed: false,
    }
}

fn score_with(panes: Vec<Pane>, timeline: Vec<Step>) -> Score {
    Score {
        demo: DemoMeta {
            name: "t".into(),
            output_dir: "./dist".into(),
            prompt: None,
            speed: None,
            targets: None,
        },
        sources: vec![],
        layout: Layout {
            width: 800,
            height: 400,
            fps: 15,
            background: None,
            font_family: None,
            font_size: None,
            panes,
        },
        timeline,
    }
}

#[test]
fn single_terminal_pane_picks_the_only_terminal() {
    let s = score_with(vec![pane("main", PaneKind::Terminal, 800, 400)], vec![]);
    let p = single_terminal_pane(&s).unwrap();
    assert_eq!(p.id, "main");
}

#[test]
fn single_terminal_pane_refuses_browser_panes() {
    let s = score_with(
        vec![
            pane("main", PaneKind::Terminal, 800, 400),
            pane("web", PaneKind::Browser, 800, 400),
        ],
        vec![],
    );
    let e = single_terminal_pane(&s).unwrap_err();
    assert!(e.message().contains("browser panes need a browser renderer"));
}

#[test]
fn single_terminal_pane_needs_a_terminal() {
    let s = score_with(vec![], vec![]);
    let e = single_terminal_pane(&s).unwrap_err();
    assert!(e.message().contains("no terminal pane to record"));
}

#[test]
fn single_terminal_pane_refuses_several_terminals() {
    let s = score_with(
        vec![
            pane("a", PaneKind::Terminal, 400, 400),
            pane("b", PaneKind::Terminal, 400, 400),
        ],
        vec![],
    );
    let e = single_terminal_pane(&s).unwrap_err();
    assert!(e.message().contains("found several"));
}

#[test]
fn pty_grid_divides_by_the_cell_size_and_clamps() {
    assert_eq!(pty_grid(&pane("m", PaneKind::Terminal, 800, 400)), (80, 20));
    assert_eq!(pty_grid(&pane("m", PaneKind::Terminal, 5, 5)), (1, 1));
    assert_eq!(pty_grid(&pane("m", PaneKind::Terminal, 50_000, 50_000)), (1000, 1000));
}

#[test]
fn secret_prompts_are_asked_once_in_order() {
    let s = score_with(
        vec![],
        vec![
            Step::Secret { prompt: "Vault passphrase:".into() },
            Step::Type { text: "ls".into(), human_salt: false },
            Step::Secret { prompt: "Token?".into() },
            Step::Secret { prompt: "Vault passphrase:".into() },
        ],
    );
    assert_eq!(secret_prompts(&s), vec!["Vault passphrase:".to_string(), "Token?".to_string()]);
    let none = score_with(vec![], vec![Step::Terminate]);
    assert!(secret_prompts(&none).is_empty());
}

#[test]
fn secret_needle_trims_punctuation_on_both_passes() {
    assert_eq!(secret_needle("Vault passphrase:"), "Vault passphrase");
    assert_eq!(secret_needle("  Token ? : "), "Token");
    assert_eq!(secret_needle(":?"), "");
    assert_eq!(secret_needle("a:b"), "a:b");
}

#[test]
fn recent_contains_looks_only_at_the_latest_chunks() {
    let mut chunks: Vec<String> = vec!["Password: ".to_string()];
    assert!(recent_contains(&chunks, "Password"));
    assert!(!recent_contains(&chunks, "Token"));
    for _ in 0..RECENT_CHUNKS {
        chunks.push("x".to_string());
    }
    assert!(!recent_contains(&chunks, "Password"));
    assert!(recent_contains(&chunks[1..], "x"));
}

fn score_with_browser() -> Score {
    let mut web = pane("github-r1", PaneKind::Browser, 1440, 1080);
    web.url = Some("https://example.com".into());
    score_with(vec![pane("main", PaneKind::Terminal, 1440, 1080), web], vec![])
}

#[test]
fn anchors_a_stale_capture_window_to_the_runs_focus() {
    // The capture said 82.1s, but this run focused the pane at 21.4s.
    let score = score_with_browser();
    let focuses: Vec<(u64, String)> = vec![(120, "main".to_string()), (21_400, "github-r1".to_string())];
    let windows = anchor_browser_windows(&score, &focuses);
    assert_eq!(windows[0], None);
    assert_eq!(windows[1], Some((Some(21_400), None)));
}

#[test]
fn focusing_back_to_the_terminal_closes_the_window() {
    let score = score_with_browser();
    let focuses: Vec<(u64, String)> = vec![(5_000, "github-r1".to_string()), (12_000, "main".to_string())];
    let windows = anchor_browser_windows(&score, &focuses);
    assert_eq!(windows[1], Some((Some(5_000), Some(12_000))));
}

#[test]
fn a_pane_never_focused_stays_off_screen() {
    // Its focus step was edited out — don't show it at the stale capture time.
    let score = score_with_browser();
    let windows = anchor_browser_windows(&score, &[(100, "main".to_string())]);
    assert_eq!(windows[1], Some((None, Some(0))));
}

#[test]
fn anchor_window_skips_refocusing_the_same_pane() {
    let focuses: Vec<(u64, String)> = vec![
        (1_000, "main".to_string()),
        (2_000, "web".to_string()),
        (3_000, "web".to_string()),
        (4_000, "main".to_string()),
        (5_000, "web".to_string()),
    ];
    assert_eq!(anchor_window("web", &focuses), (Some(2_000), Some(4_000)));
    assert_eq!(anchor_window("main", &focuses), (Some(1_000), Some(2_000)));
    assert_eq!(anchor_window("docs", &focuses), (None, Some(0)));
}

#[test]
fn prompt_line_forces_the_prompt_variable() {
    assert_eq!(prompt_var("/bin/zsh"), "PROMPT");
    assert_eq!(prompt_var("/bin/bash"), "PS1");
    assert_eq!(prompt_line("/bin/bash", "$ "), "PS1='$ '; clear");
    assert_eq!(prompt_line("zsh", "it's> "), "PROMPT='it'\\''s> '; clear");
}

#[test]
fn run_prompt_prefers_the_scores_own() {
    let mut s = score_with(vec![], vec![]);
    assert_eq!(run_prompt(&s, "/bin/zsh"), "%B%F{green}user@demo%f%b:%B%F{blue}~%f%b$ ");
    s.demo.prompt = Some("> ".into());
    assert_eq!(run_prompt(&s, "/bin/zsh"), "> ");
}

#[test]
fn step_actions_follow_the_steps() {
    assert!(matches!(step_action(&Step::Focus { pane: None }), StepAction::Skip));
    match step_action(&Step::Focus { pane: Some("web".into()) }) {
        StepAction::Focus(id) => assert_eq!(id, "web"),
        other => panic!("unexpected {other:?}"),
    }
    match step_action(&Step::Keypress { key: "enter".into() }) {
        StepAction::Key { bytes, collect_ms } => {
            assert_eq!(bytes, b"\r".to_vec());
            assert_eq!(collect_ms, 60);
        }
        other => panic!("unexpected {other:?}"),
    }
    match step_action(&Step::WaitForQuiet { quiet_ms: 300, max_ms: None }) {
        StepAction::Settle { quiet_ms, max_ms } => assert_eq!((quiet_ms, max_ms), (300, WAIT_FOR_TIMEOUT_MS)),
        other => panic!("unexpected {other:?}"),
    }
    match step_action(&Step::WaitForScreen { pattern: "ok".into(), timeout_ms: Some(900) }) {
        StepAction::WaitForScreen { pattern, timeout_ms } => {
            assert_eq!(pattern, "ok");
            assert_eq!(timeout_ms, 900);
        }
        other => panic!("unexpected {other:?}"),
    }
    match step_action(&Step::Secret { prompt: "Vault passphrase:".into() }) {
        StepAction::Secret { prompt, needle } => {
            assert_eq!(prompt, "Vault passphrase:");
            assert_eq!(needle, "Vault passphrase");
        }
        other => panic!("unexpected {other:?}"),
    }
    assert!(matches!(step_action(&Step::Terminate), StepAction::Stop));
    assert!(matches!(step_action(&Step::Wait { duration_ms: 5 }), StepAction::Sleep(5)));
}

#[test]
fn secret_waits_only_for_an_unseen_prompt() {
    let chunks = vec!["Token: ".to_string()];
    assert!(!secret_needs_wait("Token", &chunks));
    assert!(secret_needs_wait("Password", &chunks));
    assert!(!secret_needs_wait("", &chunks));
}

#[test]
fn finish_run_drops_output_after_the_settle_point() {
    let events = vec![(10, "a".to_string()), (900, "b".to_string()), (1_500, "exit".to_string())];
    let (kept, duration) = finish_run(events, 1_000);
    assert_eq!(kept, vec![(10, "a".to_string()), (900, "b".to_string())]);
    assert_eq!(duration, 1_200);
}
