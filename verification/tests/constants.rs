use demo_stage::control::{CONTROL_ENV, CONTROL_FILE, META_FILE, SOURCES_FILE};
use demo_stage::{BANNER, STOP_COMMAND};

#[test]
fn stop_command_is_correct_string() {
    assert_eq!(STOP_COMMAND, "demo stop");
}

#[test]
fn banner_contains_wordmark() {
    assert!(BANNER.contains("████"));
    assert!(BANNER.contains("██"));
}

#[test]
fn banner_is_non_empty() {
    assert!(!BANNER.is_empty());
    assert!(BANNER.len() > 100);
}

#[test]
fn banner_starts_with_newline() {
    assert!(BANNER.starts_with('\n'));
}

#[test]
fn stop_command_ends_with_stop() {
    assert!(STOP_COMMAND.ends_with("stop"));
}

#[test]
fn stop_command_starts_with_demo() {
    assert!(STOP_COMMAND.starts_with("demo"));
}

#[test]
fn stop_command_has_two_words() {
    let words: Vec<&str> = STOP_COMMAND.split_whitespace().collect();
    assert_eq!(words.len(), 2);
}

#[test]
fn banner_has_multiple_lines() {
    let lines: Vec<&str> = BANNER.lines().collect();
    assert!(lines.len() > 5);
}

#[test]
fn stop_command_no_whitespace_around_words() {
    assert_eq!(STOP_COMMAND, "demo stop");
}

#[test]
fn constants_are_expected_values() {
    assert_eq!(CONTROL_ENV, "DEMO_CAPTURE_CONTROL");
    assert_eq!(CONTROL_FILE, ".demo-capture");
    assert_eq!(SOURCES_FILE, ".demo-capture.sources");
    assert_eq!(META_FILE, ".demo-capture.meta");
}
