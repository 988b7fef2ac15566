use demo_stage::cast::{fallback_score, read_cast, write_cast, CastRecording};
use demo_stage::recording::default_score;

fn sample() -> CastRecording {
    CastRecording {
        cols: 80,
        rows: 24,
        title: "t".into(),
        events: vec![("0.1".into(), "hi".into()), ("0.5".into(), "\r\n".into())],
        meta: None,
    }
}

/// The render config a `demo record` run stashes in the header: a default
/// single-terminal score, the captions and focuses, and the duration.
fn sample_meta(captions: &str, focuses: &str, duration: &str) -> String {
    let demo = r#"{"name":"t","output_dir":"./dist"}"#;
    let layout = r#"{"width":864,"height":544,"fps":15,"panes":[{"id":"term","kind":"terminal","x":32,"y":32,"width":800,"height":480}]}"#;
    format!(
        r#"{{"demo":{},"layout":{},"captions":{},"focuses":{},"faithful":false,"duration":{}}}"#,
        demo, layout, captions, focuses, duration
    )
}

fn json(text: &str) -> serde_json::Value {
    serde_json::from_str(text).unwrap()
}

#[test]
fn cast_round_trips_through_write_and_read() {
    let rec = sample();
    let meta = sample_meta(r#"[[0.2,"step one"]]"#, "[]", "0.5");
    let cast = write_cast(&rec, &meta);
    // First line is a valid JSON header carrying our config.
    assert!(cast.lines().next().unwrap().contains("\"demostage\""));
    let back = read_cast(&cast).unwrap();
    assert_eq!(back.events, rec.events);
    let back_meta = json(back.meta.as_deref().unwrap());
    assert_eq!(back_meta["captions"], json(r#"[[0.2,"step one"]]"#));
    assert_eq!(back.cols, 80);
    assert_eq!(back_meta["layout"]["panes"].as_array().unwrap().len(), 1);
    assert_eq!(back_meta, json(&meta));
    assert_eq!((back.rows, back.title.as_str()), (24, "t"));
    assert!(fallback_score(&back).is_none());
}

#[test]
fn write_read_preserves_a_trailing_hold_duration() {
    // A browser scene revealed after the last output: duration extends past the
    // last event, and that must survive the round-trip (else the scene is cut).
    let rec = CastRecording {
        events: vec![("0.1".into(), "hi".into()), ("2.0".into(), "\r\n".into())],
        ..sample()
    };
    let meta = sample_meta("[]", r#"[[3.0,"scene1"]]"#, "11.0");
    let back = read_cast(&write_cast(&rec, &meta)).unwrap();
    let duration = json(back.meta.as_deref().unwrap())["duration"].as_f64().unwrap();
    assert!((duration - 11.0).abs() < 1e-9, "trailing hold lost: {}", duration);
    assert_eq!(back.events, rec.events);
}

#[test]
fn read_cast_without_meta_gets_the_default_score() {
    let text = "{\"width\":0,\"height\":30,\"title\":\"t\"}\n[0.5,\"o\",\"hi\"]\n\n[1.5,\"i\",\"x\"]\n";
    let rec = read_cast(text).unwrap();
    assert_eq!((rec.cols, rec.rows), (80, 30));
    assert_eq!(rec.title, "t");
    assert_eq!(rec.events, vec![("0.5".to_string(), "hi".to_string())]);
    assert_eq!(rec.meta, None);
    let (score, faithful) = fallback_score(&rec).unwrap();
    assert!(!faithful);
    assert_eq!(format!("{:?}", score), format!("{:?}", default_score("demo", 80, 30)));
}

#[test]
fn write_cast_writes_the_header_and_one_line_per_event() {
    let cast = write_cast(&sample(), "{}");
    let lines: Vec<&str> = cast.lines().collect();
    assert_eq!(
        lines,
        vec![
            r#"{"demostage":{},"env":{"TERM":"xterm-256color"},"height":24,"title":"t","version":2,"width":80}"#,
            r#"[0.1,"o","hi"]"#,
            r#"[0.5,"o","\r\n"]"#,
        ]
    );
    assert!(cast.ends_with('\n'));
}

#[test]
fn read_cast_defaults_a_missing_or_zero_grid_and_title() {
    let rec = read_cast("{\"version\":2,\"width\":0}\n[0.25,\"o\",\"hi\"]\n").unwrap();
    assert_eq!((rec.cols, rec.rows), (80, 24));
    assert_eq!(rec.title, "demo");
    assert_eq!(rec.meta, None);
    assert_eq!(rec.events, vec![("0.25".to_string(), "hi".to_string())]);
}

#[test]
fn read_cast_keeps_only_output_events() {
    let text = "{\"width\":100,\"height\":30,\"title\":\"x\"}\r\n\
                [0.1,\"i\",\"typed\"]\n\
                \n\
                   [1,\"o\",\"out\"]   \n\
                [\"late\",\"o\",\"no time\"]\n\
                [2.5,\"o\"]\n";
    let rec = read_cast(text).unwrap();
    assert_eq!((rec.cols, rec.rows), (100, 30));
    assert_eq!(rec.title, "x");
    assert_eq!(rec.events, vec![("1".to_string(), "out".to_string())]);
}

#[test]
fn read_cast_errors() {
    assert_eq!(read_cast("").unwrap_err().message(), "empty cast");
    assert!(read_cast("not json\n").unwrap_err().message().starts_with("cast header: "));
    assert!(read_cast("{}\n[0.1,\"o\",\"a\"]\noops\n")
        .unwrap_err()
        .message()
        .starts_with("cast event: "));
}
