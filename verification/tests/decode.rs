use demo_stage::decode::decode_streaming;

#[test]
fn decode_streaming_reassembles_a_split_braille_glyph() {
    // U+2839 (⠹) is 3 bytes: e2 a0 b9. Split it across two reads, as a PTY
    // can at a 4 KiB boundary, and it must reassemble — not corrupt.
    let glyph = "⠹";
    let bytes = glyph.as_bytes();
    let mut pending = Vec::new();
    let first = decode_streaming(&mut pending, &bytes[..2]);
    assert_eq!(first, "", "an incomplete sequence yields nothing yet");
    let second = decode_streaming(&mut pending, &bytes[2..]);
    assert_eq!(second, glyph, "the rest completes the glyph intact");
    assert!(pending.is_empty());
}

#[test]
fn decode_streaming_replaces_a_truly_invalid_byte() {
    // A lone 0xFF is invalid UTF-8 — it must become U+FFFD, not stall.
    let mut pending = Vec::new();
    let out = decode_streaming(&mut pending, &[b'a', 0xff, b'b']);
    assert_eq!(out, "a\u{FFFD}b");
    assert!(pending.is_empty());
}

#[test]
fn decode_streaming_valid_utf8_passthrough() {
    let mut pending = Vec::new();
    let out = decode_streaming(&mut pending, "hello".as_bytes());
    assert_eq!(out, "hello");
    assert!(pending.is_empty());
}

#[test]
fn decode_streaming_empty_input() {
    let mut pending = Vec::new();
    let out = decode_streaming(&mut pending, &[]);
    assert_eq!(out, "");
    assert!(pending.is_empty());
}

#[test]
fn decode_streaming_only_incomplete() {
    let mut pending = Vec::new();
    // 2-byte lead (0xc2) without continuation
    let out = decode_streaming(&mut pending, &[0xc2]);
    assert_eq!(out, "");
    assert_eq!(pending, vec![0xc2]);
    // Now complete it
    let out2 = decode_streaming(&mut pending, &[0xa9]);
    assert_eq!(out2, "\u{00a9}"); // ©
    assert!(pending.is_empty());
}

#[test]
fn decode_streaming_multiple_chunks() {
    let mut pending = Vec::new();
    let out1 = decode_streaming(&mut pending, "hel".as_bytes());
    assert_eq!(out1, "hel");
    let out2 = decode_streaming(&mut pending, "lo\n".as_bytes());
    assert_eq!(out2, "lo\n");
    assert!(pending.is_empty());
}

#[test]
fn decode_streaming_rejects_overlong_encoding() {
    let mut pending = Vec::new();
    // Overlong encoding of '/' (0x2f) as 0xc0 0xaf — invalid UTF-8
    let out = decode_streaming(&mut pending, &[0xc0, 0xaf]);
    // Should produce replacement character
    assert!(out.contains('\u{FFFD}') || out.is_empty());
}

#[test]
fn decode_streaming_rejects_surrogate_half() {
    let mut pending = Vec::new();
    // Surrogate half (0xED 0xA0 0x80 = U+D800) is invalid UTF-8.
    // It should be replaced with U+FFFD.
    let out = decode_streaming(&mut pending, &[0xed, 0xa0, 0x80]);
    assert!(!out.is_empty());
    // The output should contain the replacement character
    assert!(out.contains('\u{FFFD}') || out.contains('\u{fffd}'));
    assert!(pending.is_empty());
}

#[test]
fn decode_streaming_complete_utf8() {
    let mut pending = Vec::new();
    let out = decode_streaming(&mut pending, "hello world".as_bytes());
    assert_eq!(out, "hello world");
    assert!(pending.is_empty());
}

#[test]
fn decode_streaming_split_emoji() {
    let mut pending = Vec::new();
    // 🎉 is 4 bytes: f0 9f 8e 89
    let emoji = "🎉";
    let bytes = emoji.as_bytes();
    let first = decode_streaming(&mut pending, &bytes[..2]);
    assert_eq!(first, "");
    let second = decode_streaming(&mut pending, &bytes[2..]);
    assert_eq!(second, emoji);
    assert!(pending.is_empty());
}

#[test]
fn decode_streaming_empty_pending() {
    let mut pending = Vec::new();
    let out = decode_streaming(&mut pending, &[]);
    assert_eq!(out, "");
    assert!(pending.is_empty());
}

#[test]
fn decoding_read_by_read_matches_decoding_at_once() {
    let whole = "a⠹é\u{1F600}z".as_bytes().to_vec();
    for cut1 in 0..=whole.len() {
        for cut2 in cut1..=whole.len() {
            let mut pending = Vec::new();
            let mut text = String::new();
            text.push_str(&decode_streaming(&mut pending, &whole[..cut1]));
            text.push_str(&decode_streaming(&mut pending, &whole[cut1..cut2]));
            text.push_str(&decode_streaming(&mut pending, &whole[cut2..]));
            assert_eq!(text, "a⠹é\u{1F600}z");
            assert!(pending.is_empty());
        }
    }
}

#[test]
fn chunked_decoding_plus_lossy_rest_matches_lossy_whole() {
    let mut whole = "ok ⠹".as_bytes().to_vec();
    whole.push(0xff);
    whole.extend_from_slice(&"é".as_bytes()[..1]); // cut short at the end
    for cut in 0..=whole.len() {
        let mut pending = Vec::new();
        let mut text = decode_streaming(&mut pending, &whole[..cut]);
        text.push_str(&decode_streaming(&mut pending, &whole[cut..]));
        text.push_str(&String::from_utf8_lossy(&pending));
        assert_eq!(text, String::from_utf8_lossy(&whole));
        assert!(pending.len() <= 3);
    }
}
