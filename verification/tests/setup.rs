use demo_stage::cli::CaptureArgs;
use demo_stage::setup::{
    canvas_from_answer, canvas_from_flags, checked_fps, font_from_flags, fps_from_flags,
    initial_sources, prompt_from_flags, style_question, styled_prompt, wizard_answer,
    wizard_source, CanvasAnswer, PromptStyle, ThemeChoice,
};
use demo_stage::model::SourceKind;
use demo_stage::shell::default_prompt;

fn args() -> CaptureArgs {
    CaptureArgs {
        rec: "demo.rec".into(),
        idle_timeout_ms: 0,
        shell: None,
        into: None,
        no_normalize: false,
        debug: false,
        output: None,
        normalized_output: "demo.toml".into(),
        no_score: false,
        prompt: None,
        keep_prompt: false,
        font: None,
        aspect: None,
        quality: None,
        fps: None,
        resolution: None,
    }
}

#[test]
fn keep_prompt_wins_over_a_forced_prompt() {
    let mut a = args();
    a.keep_prompt = true;
    a.prompt = Some("$ ".into());
    assert_eq!(prompt_from_flags(&a, "/bin/bash"), Some((false, default_prompt("/bin/bash"))));
}

#[test]
fn forced_prompt_is_used_as_given() {
    let mut a = args();
    a.prompt = Some("> ".into());
    assert_eq!(prompt_from_flags(&a, "/bin/bash"), Some((true, "> ".to_string())));
    assert_eq!(prompt_from_flags(&args(), "/bin/bash"), None);
}

#[test]
fn wizard_answers_fall_back_to_the_default() {
    assert_eq!(wizard_answer("   ", "user@demo"), "user@demo");
    assert_eq!(wizard_answer("  me@box ", "user@demo"), "me@box");
    assert_eq!(style_question(PromptStyle::Linux), Some(("Text (user@host):", "user@demo")));
    assert_eq!(style_question(PromptStyle::Keep), None);
}

#[test]
fn styled_prompts_follow_their_templates() {
    assert_eq!(
        styled_prompt(PromptStyle::Linux, "me@box", "/bin/bash"),
        (true, "\\[\\e[1;32m\\]me@box\\[\\e[0m\\]:\\[\\e[1;34m\\]~\\[\\e[0m\\]$ ".to_string())
    );
    assert_eq!(
        styled_prompt(PromptStyle::MacOs, "me@mac", "/bin/zsh"),
        (true, "%B%F{cyan}me@mac%f%b ~ % ".to_string())
    );
    assert_eq!(
        styled_prompt(PromptStyle::PowerShell, "C:\\Users\\demo", "/bin/zsh"),
        (true, "PS %B%F{cyan}C:\\\\Users\\\\demo%f%b> ".to_string())
    );
    assert_eq!(
        styled_prompt(PromptStyle::Minimal, "❯", "/bin/zsh"),
        (true, "%B%F{green}❯%f%b ".to_string())
    );
    assert_eq!(
        styled_prompt(PromptStyle::Keep, "ignored", "/bin/bash"),
        (false, default_prompt("/bin/bash"))
    );
}

#[test]
fn canvas_flags_pick_resolution_then_aspect_then_quality() {
    let mut a = args();
    a.resolution = Some("1600x900".into());
    a.aspect = Some("1:1".into());
    assert_eq!(canvas_from_flags(&a, true).unwrap().unwrap(), Some((1600, 900)));
    let mut a = args();
    a.aspect = Some("9:16".into());
    assert_eq!(canvas_from_flags(&a, true).unwrap().unwrap(), Some((1080, 1920)));
    a.quality = Some("hd".into());
    assert_eq!(canvas_from_flags(&a, true).unwrap().unwrap(), Some((720, 1280)));
    let mut a = args();
    a.quality = Some("hd".into());
    assert_eq!(canvas_from_flags(&a, true).unwrap().unwrap(), Some((1280, 720)));
    assert!(canvas_from_flags(&args(), true).is_none());
    assert_eq!(canvas_from_flags(&args(), false).unwrap().unwrap(), None);
}

#[test]
fn canvas_flags_report_bad_values() {
    let mut a = args();
    a.resolution = Some("huge".into());
    let e = canvas_from_flags(&a, true).unwrap().unwrap_err();
    assert!(e.message().starts_with("invalid resolution 'huge'"));
    let mut a = args();
    a.aspect = Some("2:1".into());
    let e = canvas_from_flags(&a, true).unwrap().unwrap_err();
    assert_eq!(e.message(), "invalid aspect '2:1' — try 16:9, 9:16, 4:3, or 1:1");
    let mut a = args();
    a.quality = Some("4k".into());
    let e = canvas_from_flags(&a, true).unwrap().unwrap_err();
    assert_eq!(e.message(), "invalid quality '4k' — try fullhd or hd");
}

#[test]
fn canvas_wizard_answers() {
    assert_eq!(canvas_from_answer(&CanvasAnswer::Auto).unwrap(), None);
    let custom = CanvasAnswer::Custom { width: " 1920 ".into(), height: "1080".into() };
    assert_eq!(canvas_from_answer(&custom).unwrap(), Some((1920, 1080)));
    let ratio = CanvasAnswer::Ratio { ratio: "4:3".into(), full_hd: false };
    assert_eq!(canvas_from_answer(&ratio).unwrap(), Some((960, 720)));
    let bad = CanvasAnswer::Custom { width: "0".into(), height: "1080".into() };
    assert!(canvas_from_answer(&bad).is_err());
}

#[test]
fn font_and_fps_from_flags() {
    let mut a = args();
    assert_eq!(font_from_flags(&a, true), None);
    assert_eq!(font_from_flags(&a, false).as_deref(), Some("DejaVu Sans Mono"));
    a.font = Some("Fira Code".into());
    assert_eq!(font_from_flags(&a, true).as_deref(), Some("Fira Code"));
    let mut a = args();
    assert!(fps_from_flags(&a, true).is_none());
    assert_eq!(fps_from_flags(&a, false).unwrap().unwrap(), 15);
    a.fps = Some(24);
    assert_eq!(fps_from_flags(&a, true).unwrap().unwrap(), 24);
    a.fps = Some(60);
    let e = fps_from_flags(&a, true).unwrap().unwrap_err();
    assert_eq!(e.message(), "unsupported fps 60 — try 15, 24, or 30");
    assert_eq!(checked_fps(30).unwrap(), 30);
}

#[test]
fn wizard_sources_start_with_the_terminal() {
    let s = initial_sources();
    assert_eq!(s.len(), 1);
    assert_eq!(s[0].id, "main");
    assert_eq!(s[0].kind, SourceKind::Terminal);
}

#[test]
fn wizard_source_trims_the_id_and_maps_the_theme() {
    let s = wizard_source("  docs ", "https://docs.rs".into(), ThemeChoice::Dark).unwrap();
    assert_eq!(s.id, "docs");
    assert_eq!(s.kind, SourceKind::Browser);
    assert_eq!(s.url.as_deref(), Some("https://docs.rs"));
    assert_eq!(s.theme.as_deref(), Some("dark"));
    let s = wizard_source("gh", "https://github.com".into(), ThemeChoice::Page).unwrap();
    assert_eq!(s.theme, None);
    assert!(wizard_source("   ", "https://x".into(), ThemeChoice::Light).is_none());
}
