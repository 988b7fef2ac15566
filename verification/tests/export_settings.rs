use demo_stage::canvas::{
    canvas_from_aspect_quality, parse_resolution_override, rescale_layout, resolve_export_resolution,
};
use demo_stage::cli::ExportArgs;
use demo_stage::model::{DemoMeta, Layout, Pane, PaneKind, Score};
use demo_stage::cli::{all_targets, resolve_targets, Target};

#[test]
fn the_score_supplies_the_targets_when_the_argument_does_not() {
    assert_eq!(
        resolve_targets(Some(&["gif".to_string()])).unwrap(),
        vec![Target::Gif]
    );
    assert_eq!(resolve_targets(None).unwrap(), all_targets());
    assert_eq!(resolve_targets(Some(&[])).unwrap(), all_targets());
}

#[test]
fn an_unknown_target_in_the_score_is_an_error() {
    let err = resolve_targets(Some(&["webm".to_string()]))
        .unwrap_err()
        .message();
    assert!(err.contains("webm"), "unhelpful message: {err}");
}

#[test]
fn parse_resolution_override_presets() {
    assert_eq!(
        parse_resolution_override("landscape").unwrap(),
        (1920, 1080)
    );
    assert_eq!(parse_resolution_override("portrait").unwrap(), (1080, 1920));
    assert_eq!(parse_resolution_override("square").unwrap(), (1080, 1080));
    assert_eq!(parse_resolution_override("standard").unwrap(), (1280, 720));
    assert_eq!(parse_resolution_override("fullhd").unwrap(), (1920, 1080));
}

#[test]
fn parse_resolution_override_wxh() {
    assert_eq!(parse_resolution_override("800x600").unwrap(), (800, 600));
    assert_eq!(parse_resolution_override("1024×768").unwrap(), (1024, 768));
    assert_eq!(
        parse_resolution_override(" 800 x 600 ").unwrap(),
        (800, 600)
    );
}

#[test]
fn parse_resolution_override_rejects_invalid() {
    assert!(parse_resolution_override("huge").is_err());
    assert!(parse_resolution_override("0x100").is_err());
    assert!(parse_resolution_override("abcxdef").is_err());
}

#[test]
fn canvas_from_aspect_quality_all_ratios() {
    assert_eq!(
        canvas_from_aspect_quality("16:9", "fullhd").unwrap(),
        (1920, 1080)
    );
    assert_eq!(
        canvas_from_aspect_quality("9:16", "fullhd").unwrap(),
        (1080, 1920)
    );
    assert_eq!(
        canvas_from_aspect_quality("4:3", "fullhd").unwrap(),
        (1440, 1080)
    );
    assert_eq!(
        canvas_from_aspect_quality("1:1", "fullhd").unwrap(),
        (1080, 1080)
    );
    assert_eq!(
        canvas_from_aspect_quality("16:9", "hd").unwrap(),
        (1280, 720)
    );
}

#[test]
fn canvas_from_aspect_quality_case_insensitive() {
    assert_eq!(
        canvas_from_aspect_quality("16:9", "FullHD").unwrap(),
        (1920, 1080)
    );
    assert_eq!(canvas_from_aspect_quality("1:1", "HD").unwrap(), (720, 720));
}

#[test]
fn canvas_from_aspect_quality_errors() {
    assert!(canvas_from_aspect_quality("3:2", "fullhd").is_err());
    assert!(canvas_from_aspect_quality("16:9", "4k").is_err());
}

fn test_score(w: u32, h: u32) -> Score {
    Score {
        demo: DemoMeta {
            name: "test".into(),
            output_dir: "./dist".into(),
            prompt: None,
            speed: None,
            targets: None,
        },
        sources: vec![],
        layout: Layout {
            width: w,
            height: h,
            fps: 15,
            background: None,
            font_family: None,
            font_size: None,
            panes: vec![
                Pane {
                    id: "main".into(),
                    kind: PaneKind::Terminal,
                    x: 0,
                    y: 0,
                    width: w / 2,
                    height: h,
                    font_family: None,
                    font_size: None,
                    url: None,
                    theme: None,
                    ignore_speed: false,
                },
                Pane {
                    id: "browser".into(),
                    kind: PaneKind::Browser,
                    x: w / 2,
                    y: 0,
                    width: w / 2,
                    height: h,
                    font_family: None,
                    font_size: None,
                    url: Some("http://example.com".into()),
                    theme: None,
                    ignore_speed: false,
                },
            ],
        },
        timeline: vec![],
    }
}

#[test]
fn rescale_layout_doubles_dimensions() {
    let mut score = test_score(100, 100);
    rescale_layout(&mut score, 200, 200);
    assert_eq!(score.layout.width, 200);
    assert_eq!(score.layout.height, 200);
    assert_eq!(score.layout.panes[0].x, 0);
    assert_eq!(score.layout.panes[0].width, 100);
    assert_eq!(score.layout.panes[1].x, 100);
    assert_eq!(score.layout.panes[1].width, 100);
}

#[test]
fn rescale_layout_noop_when_same() {
    let mut score = test_score(100, 100);
    rescale_layout(&mut score, 100, 100);
    assert_eq!(score.layout.panes[0].width, 50);
}

#[test]
fn rescale_layout_handles_non_square() {
    let mut score = test_score(100, 100);
    rescale_layout(&mut score, 200, 100);
    assert_eq!(score.layout.width, 200);
    assert_eq!(score.layout.height, 100);
    assert_eq!(score.layout.panes[0].width, 100);
    assert_eq!(score.layout.panes[0].height, 100);
}

#[test]
fn rescale_layout_rounds_to_nearest() {
    let mut score = test_score(3, 3);
    // panes: (0,0,1,3) and (1,0,1,3); 3 -> 5 scales by 5/3.
    rescale_layout(&mut score, 5, 4);
    assert_eq!(score.layout.panes[1].x, 2); // 1.67 -> 2
    assert_eq!(score.layout.panes[0].width, 2); // 1.67 -> 2
    assert_eq!(score.layout.panes[0].height, 4);
    assert_eq!(score.layout.panes[1].url.as_deref(), Some("http://example.com"));
}

fn export_args(resolution: Option<&str>, aspect: Option<&str>, quality: Option<&str>) -> ExportArgs {
    ExportArgs {
        input: "test.toml".into(),
        targets: None,
        resolution: resolution.map(|s| s.into()),
        aspect: aspect.map(|s| s.into()),
        quality: quality.map(|s| s.into()),
        force: false,
    }
}

#[test]
fn resolve_export_resolution_from_resolution() {
    let args = export_args(Some("800x600"), None, None);
    let r = resolve_export_resolution(&args, 1920, 1080).unwrap();
    assert_eq!(r, Some((800, 600)));
}

#[test]
fn resolve_export_resolution_from_aspect() {
    let args = export_args(None, Some("16:9"), Some("hd"));
    let r = resolve_export_resolution(&args, 1920, 1080).unwrap();
    assert_eq!(r, Some((1280, 720)));
}

#[test]
fn resolve_export_resolution_from_quality() {
    let args = export_args(None, None, Some("fullhd"));
    let r = resolve_export_resolution(&args, 1920, 1080).unwrap();
    assert_eq!(r, Some((1920, 1080)));
}

#[test]
fn resolve_export_resolution_nothing() {
    let args = export_args(None, None, None);
    let r = resolve_export_resolution(&args, 1920, 1080).unwrap();
    assert_eq!(r, None);
}

#[test]
fn resolve_export_resolution_aspect_defaults_to_fullhd_and_reports_errors() {
    let args = export_args(None, Some("9:16"), None);
    assert_eq!(resolve_export_resolution(&args, 1, 1).unwrap(), Some((1080, 1920)));
    let args = export_args(Some("huge"), Some("16:9"), None);
    assert!(resolve_export_resolution(&args, 1, 1).is_err());
    let args = export_args(None, Some("3:2"), None);
    assert!(resolve_export_resolution(&args, 1, 1).is_err());
}
