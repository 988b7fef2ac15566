use demo_stage::canvas::{canvas_from_aspect_quality, parse_fps, parse_resolution};
use demo_stage::capture::{
    clean_prompt, is_meta_command, is_secret_prompt, route_input_chunk, secret_step_on_submit,
    track_and_detect, utf8_len, SecretWatch, MAX_PROMPT_LINE,
};
use demo_stage::shell::{colored, default_prompt, ps1_text};

/// Route a sequence of read chunks, returning the bytes forwarded to the PTY
/// and whether a `demo` meta-command was seen (so its echo gets muted).
fn route(input: &[&[u8]]) -> (Vec<u8>, bool) {
    let mut cmd_line = String::new();
    let mut cmd_start: Option<u64> = None;
    let mut to_pty = Vec::new();
    let mut mute = false;
    for chunk in input {
        let o = route_input_chunk(chunk, &mut cmd_line, &mut cmd_start, 0);
        to_pty.extend(o.to_pty);
        mute |= o.mute_command;
    }
    (to_pty, mute)
}

#[test]
fn parses_resolution_presets_and_custom_sizes() {
    assert_eq!(parse_resolution("landscape").unwrap(), Some((1920, 1080)));
    assert_eq!(parse_resolution("Portrait").unwrap(), Some((1080, 1920)));
    assert_eq!(parse_resolution("square").unwrap(), Some((1080, 1080)));
    assert_eq!(parse_resolution("standard").unwrap(), Some((1280, 720)));
    assert_eq!(parse_resolution("1600x900").unwrap(), Some((1600, 900)));
    assert_eq!(parse_resolution("1600×900").unwrap(), Some((1600, 900)));
    assert_eq!(parse_resolution("auto").unwrap(), None);
    assert!(parse_resolution("0x100").is_err());
    assert!(parse_resolution("huge").is_err());
}

#[test]
fn canvas_from_aspect_and_quality_covers_all_combos() {
    // FullHD (short side 1080).
    assert_eq!(
        canvas_from_aspect_quality("16:9", "fullhd").unwrap(),
        (1920, 1080)
    );
    assert_eq!(
        canvas_from_aspect_quality("9:16", "fullhd").unwrap(),
        (1080, 1920)
    );
    assert_eq!(
        canvas_from_aspect_quality("4:3", "fullhd").unwrap(),
        (1440, 1080)
    );
    assert_eq!(
        canvas_from_aspect_quality("1:1", "fullhd").unwrap(),
        (1080, 1080)
    );
    // HD (short side 720).
    assert_eq!(
        canvas_from_aspect_quality("16:9", "hd").unwrap(),
        (1280, 720)
    );
    assert_eq!(
        canvas_from_aspect_quality("9:16", "hd").unwrap(),
        (720, 1280)
    );
    assert_eq!(canvas_from_aspect_quality("4:3", "hd").unwrap(), (960, 720));
    assert_eq!(canvas_from_aspect_quality("1:1", "hd").unwrap(), (720, 720));
    // Case-insensitive.
    assert_eq!(
        canvas_from_aspect_quality("16:9", "FullHD").unwrap(),
        (1920, 1080)
    );
    assert_eq!(canvas_from_aspect_quality("1:1", "HD").unwrap(), (720, 720));
    // The legacy presets map onto the new scheme exactly.
    assert_eq!(
        canvas_from_aspect_quality("16:9", "fullhd").unwrap(),
        parse_resolution("landscape").unwrap().unwrap()
    );
    assert_eq!(
        canvas_from_aspect_quality("16:9", "hd").unwrap(),
        parse_resolution("standard").unwrap().unwrap()
    );
}

#[test]
fn canvas_rejects_unknown_aspect_or_quality() {
    assert!(canvas_from_aspect_quality("3:2", "fullhd").is_err());
    assert!(canvas_from_aspect_quality("16:9", "4k").is_err());
}

#[test]
fn parse_fps_accepts_15_24_30_and_rejects_others() {
    assert_eq!(parse_fps("15").unwrap(), 15);
    assert_eq!(parse_fps("24").unwrap(), 24);
    assert_eq!(parse_fps("30").unwrap(), 30);
    assert!(parse_fps("60").is_err());
    assert!(parse_fps("smooth").is_err());
}

#[test]
fn detects_secret_at_a_carriage_return_boundary() {
    // inquire emits the prompt immediately followed by `\r` and cursor codes —
    // detection must fire on the prompt BEFORE the `\r` clears the line.
    let mut watch = SecretWatch::new();
    let mut line = String::new();
    // `\x1b` (ESC) is a control char; `[?25h` is the residue after it.
    track_and_detect(&mut line, " Vault passphrase:\r\x1b[?25h", &mut watch);
    assert!(
        watch.sensitive,
        "should latch on the prompt"
    );
    assert_eq!(
        watch.secret_prompt.as_deref(),
        Some("Vault passphrase:")
    );
}

#[test]
fn clean_prompt_strips_colour_and_cursor_codes() {
    // After ESC is stripped, both `[38;5;10m` colour and `[?25l` cursor codes
    // remain — clean_prompt removes them and the leading glyph.
    assert_eq!(
        clean_prompt("[?25h[?25l> [38;5;10mVault passphrase:[39m"),
        "Vault passphrase:"
    );
}

#[test]
fn flags_secret_prompts_only() {
    assert!(is_secret_prompt(
        "Enter passphrase for key '/home/u/.ssh/id_ed25519':"
    ));
    assert!(is_secret_prompt("Password: "));
    assert!(is_secret_prompt("[sudo] password for jheison:"));
    assert!(is_secret_prompt("Vault passphrase?"));
    assert!(!is_secret_prompt("$ echo my secret plan"));
    assert!(!is_secret_prompt("Cloning into 'repo'..."));
    assert!(!is_secret_prompt("Refreshing access token cache"));
    assert!(!is_secret_prompt("Vault passphrase: ***"));
}

#[test]
fn tui_screen_paint_never_matches_as_a_secret_prompt() {
    // A full-screen TUI (opencode, vim, …) repaints without newlines, so the
    // tracked "line" is huge even if it happens to contain "token …:". That
    // must never latch the secret redactor (it used to capture ~450KB of
    // screen paint as the prompt label).
    let huge = format!("{} tokens used - Context:", "x".repeat(5000));
    assert!(!is_secret_prompt(&huge));

    let mut watch = SecretWatch::new();
    let mut line = String::new();
    track_and_detect(&mut line, &huge, &mut watch);
    assert!(!watch.sensitive);
    assert!(watch.secret_prompt.is_none());
    // And the tracker's memory stays bounded while the paint streams on.
    assert!(line.len() <= MAX_PROMPT_LINE);
}

#[test]
fn everything_typed_reaches_the_pty_and_is_echoed() {
    // No hidden commands anymore: whatever you type is forwarded verbatim so
    // the shell echoes it. A leading `/` is just a normal character now.
    let (to_pty, mute) = route(&[b"/stop\r"]);
    assert_eq!(to_pty, b"/stop\r");
    assert!(!mute);
}

#[test]
fn regular_command_still_works() {
    let (to_pty, mute) = route(&[b"ls -la\n"]);
    assert_eq!(to_pty, b"ls -la\n");
    assert!(!mute);
}

#[test]
fn meta_command_is_flagged_for_muting() {
    // `demo focus`/`demo open`/`demo stop` typed in-session must mute so their
    // echo and wizard never reach the recording — even split across reads.
    assert!(route(&[b"demo focus fill-main\n"]).1);
    assert!(route(&[b"demo ", b"open ", b"github.com\r"]).1);
    assert!(route(&[b"demo stop\n"]).1);
    assert!(
        !route(&[b"demodocs\n"]).1,
        "a lookalike command must not mute"
    );
}

#[test]
fn backspace_is_forwarded_and_erases_cmd_line() {
    let (to_pty, _) = route(&[b"ab\x7f\n"]);
    assert_eq!(to_pty, b"ab\x7f\n");
}

#[test]
fn utf8_round_trip_through_routing() {
    let (to_pty, _) = route(&["héllo\n".as_bytes()]);
    assert_eq!(to_pty, "héllo\n".as_bytes());
}

#[test]
fn utf8_len_returns_correct_sequence_lengths() {
    assert_eq!(utf8_len(0x00), 1);
    assert_eq!(utf8_len(0x7f), 1);
    assert_eq!(utf8_len(0x80), 1);
    assert_eq!(utf8_len(0xbf), 1);
    assert_eq!(utf8_len(0xc0), 2);
    assert_eq!(utf8_len(0xdf), 2);
    assert_eq!(utf8_len(0xe0), 3);
    assert_eq!(utf8_len(0xef), 3);
    assert_eq!(utf8_len(0xf0), 4);
    assert_eq!(utf8_len(0xf4), 4);
}

#[test]
fn ps1_text_doubles_backslashes() {
    assert_eq!(ps1_text(r"C:\Users"), r"C:\\Users");
    assert_eq!(ps1_text("no backslash"), "no backslash");
    assert_eq!(ps1_text(""), "");
}

#[test]
fn is_meta_command_matches_demo_stop_open_focus() {
    assert!(is_meta_command("demo stop"));
    assert!(is_meta_command("demo open http://example.com"));
    assert!(is_meta_command("demo focus main"));
    assert!(is_meta_command("  demo stop"));
    assert!(!is_meta_command("echo demo stop"));
    assert!(!is_meta_command("ls"));
    assert!(!is_meta_command(""));
}

#[test]
fn default_prompt_contains_user_at_demo_and_dollar() {
    let bash_prompt = default_prompt("/bin/bash");
    assert!(bash_prompt.contains("user@demo"));
    assert!(bash_prompt.contains("$ "));

    let zsh_prompt = default_prompt("/bin/zsh");
    assert!(zsh_prompt.contains("user@demo"));
    assert!(zsh_prompt.contains("$ "));
}

#[test]
fn colored_bash_produces_ansi_codes() {
    let result = colored("/bin/bash", "\\[\\e[32m\\]", "", "test");
    assert!(result.contains("32m"));
    assert!(result.contains("test"));
}

#[test]
fn colored_zsh_uses_colon_syntax() {
    let result = colored("/bin/zsh", "", "%F{green}", "test");
    assert!(result.contains("%F{green}"));
    assert!(result.contains("test"));
}

#[test]
fn parse_fps_valid() {
    assert_eq!(parse_fps("15").unwrap(), 15);
    assert_eq!(parse_fps("24").unwrap(), 24);
    assert_eq!(parse_fps("30").unwrap(), 30);
}

#[test]
fn parse_fps_invalid() {
    assert!(parse_fps("60").is_err());
    assert!(parse_fps("abc").is_err());
    assert!(parse_fps("0").is_err());
}

#[test]
fn is_meta_command_edge_cases() {
    assert!(is_meta_command("demo stop"));
    assert!(is_meta_command("demo open https://example.com"));
    assert!(is_meta_command("demo focus main"));
    assert!(!is_meta_command("echo demo stop"));
    assert!(!is_meta_command("ls demo"));
    assert!(!is_meta_command(""));
    assert!(!is_meta_command("demo"));
    assert!(!is_meta_command("demo "));
}

#[test]
fn clean_prompt_basic() {
    assert_eq!(clean_prompt("Password:"), "Password:");
    assert_eq!(clean_prompt("  Password:  "), "Password:");
}

#[test]
fn ps1_text_various() {
    assert_eq!(ps1_text("no special chars"), "no special chars");
    assert_eq!(ps1_text("one\\slash"), "one\\\\slash");
    assert_eq!(ps1_text("\\n"), "\\\\n");
}

#[test]
fn utf8_len_ascii() {
    assert_eq!(utf8_len(b'A'), 1);
    assert_eq!(utf8_len(b' '), 1);
    assert_eq!(utf8_len(b'0'), 1);
}

#[test]
fn colored_bash_produces_ansi_codes_more() {
    let result = colored("/bin/bash", "\\[\\e[1;31m\\]", "", "test");
    assert!(result.contains("1;31m"));
    assert!(result.contains("test"));
    assert!(result.contains("\\[\\e[0m\\]"));
}

#[test]
fn colored_zsh_uses_colon_syntax_more() {
    let result = colored("/bin/zsh", "", "%F{red}", "hello");
    assert!(result.contains("red"));
    assert!(result.contains("hello"));
}

#[test]
fn default_prompt_bash_has_dollar() {
    let p = default_prompt("/bin/bash");
    assert!(p.contains("$ "));
    assert!(p.contains("user@demo"));
}

#[test]
fn default_prompt_zsh_has_dollar() {
    let p = default_prompt("/bin/zsh");
    assert!(p.contains("$ "));
    assert!(p.contains("user@demo"));
}

#[test]
fn clean_prompt_strips_question_mark_prefix() {
    assert_eq!(clean_prompt("? Password:"), "Password:");
}

#[test]
fn clean_prompt_strips_arrow_prefix() {
    assert_eq!(clean_prompt("> Enter secret:"), "Enter secret:");
}

#[test]
fn clean_prompt_strips_diamond_prefix() {
    assert_eq!(clean_prompt("◆ Token:"), "Token:");
}

#[test]
fn clean_prompt_strips_bullet_prefix() {
    assert_eq!(clean_prompt("● API key:"), "API key:");
}

#[test]
fn clean_prompt_strips_asterisk_prefix() {
    assert_eq!(clean_prompt("* Secret:"), "Secret:");
}

#[test]
fn clean_prompt_preserves_literal_bracket_without_final_letter() {
    // A `[` followed by digits but no final letter is NOT a CSI — keep it.
    assert_eq!(clean_prompt("item[1]"), "item[1]");
}

#[test]
fn clean_prompt_empty_string() {
    assert_eq!(clean_prompt(""), "");
}

#[test]
fn is_secret_prompt_rejects_long_lines() {
    let long = format!("{}:", "x".repeat(300));
    assert!(!is_secret_prompt(&long));
}

#[test]
fn is_secret_prompt_rejects_no_colon_or_question() {
    assert!(!is_secret_prompt("Password"));
    assert!(!is_secret_prompt("secret"));
}

#[test]
fn is_secret_prompt_accepts_question_mark() {
    assert!(is_secret_prompt("Enter passphrase?"));
}

#[test]
fn is_secret_prompt_accepts_token() {
    assert!(is_secret_prompt("Token:"));
}

#[test]
fn is_secret_prompt_accepts_api_key() {
    assert!(is_secret_prompt("API key:"));
}

#[test]
fn is_secret_prompt_accepts_access_key() {
    assert!(is_secret_prompt("Access key:"));
}

#[test]
fn is_secret_prompt_accepts_credential() {
    assert!(is_secret_prompt("Credential:"));
}

#[test]
fn is_secret_prompt_accepts_verification_code() {
    assert!(is_secret_prompt("Verification code:"));
}

#[test]
fn is_secret_prompt_rejects_case_insensitive() {
    // Should match regardless of case
    assert!(is_secret_prompt("PASSWORD:"));
    assert!(is_secret_prompt("PASSPHRASE:"));
}

#[test]
fn is_secret_prompt_rejects_tui_painting() {
    // TUI paint without colon/question
    assert!(!is_secret_prompt("some random text without prompt marker"));
}

#[test]
fn track_and_detect_multiple_lines() {
    let mut watch = SecretWatch::new();
    let mut line = String::new();
    track_and_detect(&mut line, "hello\nworld\n", &mut watch);
    assert!(!watch.sensitive);
    assert_eq!(line, "");
}

#[test]
fn track_and_detect_partial_line() {
    let mut watch = SecretWatch::new();
    let mut line = String::new();
    track_and_detect(&mut line, "partial", &mut watch);
    assert!(!watch.sensitive);
    assert_eq!(line, "partial");
}

#[test]
fn track_and_detect_csi_residue_in_line() {
    let mut watch = SecretWatch::new();
    let mut line = String::new();
    track_and_detect(&mut line, "Vault passphrase:\r\x1b[?25h", &mut watch);
    assert!(watch.sensitive);
}

#[test]
fn track_and_detect_control_chars_ignored() {
    let mut watch = SecretWatch::new();
    let mut line = String::new();
    track_and_detect(&mut line, "abc\x01\x02\x03def", &mut watch);
    assert_eq!(line, "abcdef");
}

#[test]
fn canvas_from_aspect_quality_case_insensitive_fullhd() {
    assert_eq!(
        canvas_from_aspect_quality("16:9", "FullHD").unwrap(),
        (1920, 1080)
    );
}

#[test]
fn canvas_from_aspect_quality_case_insensitive_hd() {
    assert_eq!(canvas_from_aspect_quality("1:1", "HD").unwrap(), (720, 720));
}

#[test]
fn canvas_from_aspect_quality_invalid_aspect() {
    assert!(canvas_from_aspect_quality("3:2", "fullhd").is_err());
}

#[test]
fn canvas_from_aspect_quality_invalid_quality() {
    assert!(canvas_from_aspect_quality("16:9", "4k").is_err());
}

#[test]
fn parse_resolution_auto() {
    assert_eq!(parse_resolution("auto").unwrap(), None);
}

#[test]
fn parse_resolution_invalid_format() {
    assert!(parse_resolution("huge").is_err());
}

#[test]
fn parse_resolution_zero_width() {
    assert!(parse_resolution("0x100").is_err());
}

#[test]
fn parse_resolution_zero_height() {
    assert!(parse_resolution("100x0").is_err());
}

#[test]
fn parse_fps_whitespace() {
    assert_eq!(parse_fps("  15  ").unwrap(), 15);
}

#[test]
fn parse_fps_negative() {
    assert!(parse_fps("-1").is_err());
}

#[test]
fn is_meta_command_demo_focus_with_args() {
    assert!(is_meta_command("demo focus main docs"));
}

#[test]
fn is_meta_command_demo_open_with_url() {
    assert!(is_meta_command("demo open http://example.com"));
}

#[test]
fn is_meta_command_demo_stop() {
    assert!(is_meta_command("demo stop"));
}

#[test]
fn is_meta_command_leading_whitespace() {
    assert!(is_meta_command("  demo stop"));
}

#[test]
fn is_meta_command_not_a_command() {
    assert!(!is_meta_command("echo demo stop"));
}

#[test]
fn is_meta_command_empty() {
    assert!(!is_meta_command(""));
}

#[test]
fn is_meta_command_just_demo() {
    assert!(!is_meta_command("demo"));
}

#[test]
fn is_meta_command_demo_space() {
    assert!(!is_meta_command("demo "));
}

#[test]
fn ps1_text_backslash_at_start() {
    assert_eq!(ps1_text(r"\start"), r"\\start");
}

#[test]
fn ps1_text_multiple_backslashes() {
    assert_eq!(ps1_text(r"\a\b\c"), r"\\a\\b\\c");
}

#[test]
fn utf8_len_continuation_byte() {
    assert_eq!(utf8_len(0x80), 1);
}

#[test]
fn utf8_len_two_byte_lead() {
    assert_eq!(utf8_len(0xc0), 2);
}

#[test]
fn utf8_len_three_byte_lead() {
    assert_eq!(utf8_len(0xe0), 3);
}

#[test]
fn utf8_len_four_byte_lead() {
    assert_eq!(utf8_len(0xf0), 4);
}

#[test]
fn utf8_len_ascii_max() {
    assert_eq!(utf8_len(0x7f), 1);
}

#[test]
fn route_input_chunk_echoes_normal_text() {
    let (to_pty, mute) = route(&[b"hello world\n"]);
    assert_eq!(to_pty, b"hello world\n");
    assert!(!mute);
}

#[test]
fn route_input_chunk_split_across_chunks() {
    let (to_pty, _) = route(&[b"hel", b"lo\n"]);
    assert_eq!(to_pty, b"hello\n");
}

#[test]
fn route_input_chunk_backspace() {
    let (to_pty, _) = route(&[b"ab\x7f"]);
    assert_eq!(to_pty, b"ab\x7f");
}

#[test]
fn route_input_chunk_utf8() {
    let (to_pty, _) = route(&["café\n".as_bytes()]);
    assert_eq!(to_pty, "café\n".as_bytes());
}

#[test]
fn route_input_chunk_meta_command_across_chunks() {
    let (_, mute) = route(&[b"demo ", b"stop\n"]);
    assert!(mute);
}

#[test]
fn route_input_chunk_not_meta_command() {
    let (_, mute) = route(&[b"demodocs\n"]);
    assert!(!mute);
}

#[test]
fn track_and_detect_secret_at_newline_boundary() {
    let mut watch = SecretWatch::new();
    let mut line = String::new();
    track_and_detect(&mut line, "Password:\n", &mut watch);
    assert!(watch.sensitive);
}

#[test]
fn track_and_detect_no_secret_without_colon() {
    let mut watch = SecretWatch::new();
    let mut line = String::new();
    track_and_detect(&mut line, "Password\n", &mut watch);
    assert!(!watch.sensitive);
}

#[test]
fn track_and_detect_long_line_not_truncated() {
    let mut watch = SecretWatch::new();
    let mut line = String::new();
    // Line under MAX_PROMPT_LINE should be kept
    let short = "a".repeat(100);
    track_and_detect(&mut line, &short, &mut watch);
    assert_eq!(line.len(), 100);
}

#[test]
fn track_and_detect_long_line_truncated() {
    let mut watch = SecretWatch::new();
    let mut line = String::new();
    // Line over MAX_PROMPT_LINE should be truncated
    let long = "a".repeat(300);
    track_and_detect(&mut line, &long, &mut watch);
    assert!(line.len() <= MAX_PROMPT_LINE);
}

#[test]
fn clean_prompt_csi_sequence_with_params() {
    assert_eq!(clean_prompt("[38;5;10mPassword:[39m"), "Password:");
}

#[test]
fn clean_prompt_csi_sequence_cursor() {
    assert_eq!(clean_prompt("[?25lPassword:"), "Password:");
}

#[test]
fn clean_prompt_mixed_content() {
    assert_eq!(clean_prompt("[31m[?25l> Password:"), "Password:");
}

#[test]
fn is_secret_prompt_with_space_before_colon() {
    assert!(is_secret_prompt("Password :"));
}

#[test]
fn is_secret_prompt_with_tab() {
    assert!(is_secret_prompt("Password:\t"));
}

#[test]
fn is_secret_prompt_case_insensitive() {
    assert!(is_secret_prompt("PASSWORD:"));
    assert!(is_secret_prompt("Passphrase:"));
    assert!(is_secret_prompt("PASSPHRASE:"));
}

#[test]
fn is_secret_prompt_with_leading_whitespace() {
    assert!(is_secret_prompt("  Password:"));
}

#[test]
fn ps1_text_backslash_in_middle() {
    assert_eq!(ps1_text("a\\b"), "a\\\\b");
}

#[test]
fn ps1_text_multiple_consecutive_backslashes() {
    assert_eq!(ps1_text("\\\\a"), "\\\\\\\\a");
}

#[test]
fn colored_bash_basic() {
    let result = colored("/bin/bash", "\\[\\e[32m\\]", "", "test");
    assert!(result.contains("32m"));
    assert!(result.contains("test"));
    assert!(result.contains("\\[\\e[0m\\]"));
}

#[test]
fn colored_zsh_basic() {
    let result = colored("/bin/zsh", "", "%F{green}", "test");
    assert!(result.contains("%F{green}"));
    assert!(result.contains("test"));
}

#[test]
fn default_prompt_bash_contains_dollar() {
    let p = default_prompt("/bin/bash");
    assert!(p.contains("$ "));
    assert!(p.contains("user@demo"));
}

#[test]
fn default_prompt_zsh_contains_dollar() {
    let p = default_prompt("/bin/zsh");
    assert!(p.contains("$ "));
    assert!(p.contains("user@demo"));
}

#[test]
fn route_input_chunk_multiple_chars() {
    let (to_pty, _) = route(&[b"abc\n"]);
    assert_eq!(to_pty, b"abc\n");
}

#[test]
fn route_input_chunk_control_chars() {
    let (to_pty, _) = route(&[b"\x03"]);
    assert_eq!(to_pty, b"\x03");
}

#[test]
fn utf8_len_all_ranges() {
    // ASCII
    assert_eq!(utf8_len(0x00), 1);
    assert_eq!(utf8_len(0x7f), 1);
    // Continuation bytes
    assert_eq!(utf8_len(0x80), 1);
    assert_eq!(utf8_len(0xbf), 1);
    // 2-byte leads
    assert_eq!(utf8_len(0xc0), 2);
    assert_eq!(utf8_len(0xdf), 2);
    // 3-byte leads
    assert_eq!(utf8_len(0xe0), 3);
    assert_eq!(utf8_len(0xef), 3);
    // 4-byte leads
    assert_eq!(utf8_len(0xf0), 4);
    assert_eq!(utf8_len(0xf4), 4);
}

#[test]
fn is_meta_command_variations() {
    assert!(is_meta_command("demo stop"));
    assert!(is_meta_command("demo open http://example.com"));
    assert!(is_meta_command("demo focus main"));
    assert!(!is_meta_command("echo demo stop"));
    assert!(!is_meta_command("ls"));
    assert!(!is_meta_command(""));
    assert!(!is_meta_command("demo"));
    assert!(!is_meta_command("demo "));
}

#[test]
fn secret_step_on_submit_no_guard_records() {
    let mut last: Option<String> = None;
    assert!(secret_step_on_submit(&mut last, false, "Password:"));
    assert_eq!(last.as_deref(), Some("Password:"));
}

#[test]
fn secret_step_on_submit_same_prompt_is_dup() {
    let mut last = Some("Password:".to_string());
    assert!(!secret_step_on_submit(&mut last, false, "Password:"));
}

#[test]
fn secret_step_on_submit_different_prompt_records() {
    let mut last = Some("Password:".to_string());
    assert!(secret_step_on_submit(&mut last, false, "Token:"));
    assert_eq!(last.as_deref(), Some("Token:"));
}

#[test]
fn secret_step_on_submit_clears_guard_when_prompt_left_screen() {
    let mut last = Some("Password:".to_string());
    assert!(secret_step_on_submit(&mut last, true, "Password:"));
    assert_eq!(last.as_deref(), Some("Password:"));
}

#[test]
fn secret_dedup_same_prompt_with_submission_produces_two_events() {
    let mut watch = SecretWatch::new();
    let mut last_secret_prompt: Option<String> = None;
    let mut events = Vec::new();

    let mut line = String::new();
    track_and_detect(&mut line, "Password:\n", &mut watch);
    let prompt = watch.secret_prompt.take().unwrap();
    let cleared = std::mem::replace(&mut watch.prompt_cleared, false);
    if secret_step_on_submit(&mut last_secret_prompt, cleared, &prompt) {
        events.push(prompt);
    }
    watch.sensitive = false;

    let mut line = String::new();
    track_and_detect(&mut line, "Welcome to sudo\n", &mut watch);
    assert!(watch.prompt_cleared);

    let mut line = String::new();
    track_and_detect(&mut line, "Password:\n", &mut watch);
    let prompt = watch.secret_prompt.take().unwrap();
    let cleared = std::mem::replace(&mut watch.prompt_cleared, false);
    if secret_step_on_submit(&mut last_secret_prompt, cleared, &prompt) {
        events.push(prompt);
    }

    assert_eq!(events.len(), 2);
}

#[test]
fn secret_dedup_same_prompt_no_submission_produces_one_event() {
    let mut watch = SecretWatch::new();
    let mut last_secret_prompt: Option<String> = None;
    let mut events = Vec::new();

    let mut line = String::new();
    track_and_detect(&mut line, "Password:\n", &mut watch);

    let mut line = String::new();
    track_and_detect(&mut line, "Password:\n", &mut watch);

    let prompt = watch.secret_prompt.take().unwrap();
    let cleared = std::mem::replace(&mut watch.prompt_cleared, false);
    if secret_step_on_submit(&mut last_secret_prompt, cleared, &prompt) {
        events.push(prompt);
    }

    assert_eq!(events.len(), 1);
}

#[test]
fn secret_dedup_different_prompts_produce_two_events() {
    let mut watch = SecretWatch::new();
    let mut last_secret_prompt: Option<String> = None;
    let mut events = Vec::new();

    let mut line = String::new();
    track_and_detect(&mut line, "Password:\n", &mut watch);
    let prompt = watch.secret_prompt.take().unwrap();
    let cleared = std::mem::replace(&mut watch.prompt_cleared, false);
    if secret_step_on_submit(&mut last_secret_prompt, cleared, &prompt) {
        events.push(prompt);
    }
    watch.sensitive = false;

    let mut line = String::new();
    track_and_detect(&mut line, "Some output\n", &mut watch);

    let mut line = String::new();
    track_and_detect(&mut line, "Token:\n", &mut watch);
    let prompt = watch.secret_prompt.take().unwrap();
    let cleared = std::mem::replace(&mut watch.prompt_cleared, false);
    if secret_step_on_submit(&mut last_secret_prompt, cleared, &prompt) {
        events.push(prompt);
    }

    assert_eq!(events.len(), 2);
}

#[test]
fn secret_dedup_guard_must_be_cleared_by_prompt_leaving_screen() {
    // Exercises the extracted helper directly: same prompt submitted twice
    // with prompt_left_screen=true between them must produce two events.
    // If the guard were capture-wide (prompt_left_screen ignored), the
    // second call would return false and this test would fail.
    let mut last: Option<String> = None;
    assert!(secret_step_on_submit(&mut last, false, "Password:"));
    assert!(secret_step_on_submit(&mut last, true, "Password:"));
}

#[test]
fn secret_dedup_immediate_redraw_after_enter_is_suppressed() {
    let mut watch = SecretWatch::new();
    let mut last_secret_prompt: Option<String> = None;
    let mut events = Vec::new();

    let mut line = String::new();
    track_and_detect(&mut line, "Password:\n", &mut watch);
    let prompt = watch.secret_prompt.take().unwrap();
    let cleared = std::mem::replace(&mut watch.prompt_cleared, false);
    if secret_step_on_submit(&mut last_secret_prompt, cleared, &prompt) {
        events.push(prompt);
    }
    watch.sensitive = false;

    let mut line = String::new();
    track_and_detect(&mut line, "Password:\n", &mut watch);
    let prompt = watch.secret_prompt.take().unwrap();
    let cleared = std::mem::replace(&mut watch.prompt_cleared, false);
    if secret_step_on_submit(&mut last_secret_prompt, cleared, &prompt) {
        events.push(prompt);
    }

    assert_eq!(events.len(), 1);
}

#[test]
fn secret_prompt_cleared_not_set_on_partial_line() {
    // A prompt split across PTY reads must not spuriously set the cleared
    // flag: "[sudo] password for " at chunk end (no newline) is a partial
    // line, not a completed non-secret line.
    let mut watch = SecretWatch::new();
    let mut line = String::new();
    track_and_detect(&mut line, "[sudo] password for ", &mut watch);
    assert!(
        !watch.prompt_cleared,
        "partial line at chunk end must not set secret_prompt_cleared"
    );
}


#[test]
fn tracked_line_never_exceeds_the_cap_with_wide_chars() {
    let mut watch = SecretWatch::new();
    let mut line = "a".repeat(255);
    track_and_detect(&mut line, "é", &mut watch);
    assert_eq!(line.len(), 255);
    track_and_detect(&mut line, "b", &mut watch);
    assert_eq!(line.len(), MAX_PROMPT_LINE);
    track_and_detect(&mut line, &"x".repeat(5000), &mut watch);
    assert!(line.len() <= MAX_PROMPT_LINE);
}
