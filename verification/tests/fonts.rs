use demo_stage::fonts::{parse_font_name, DEFAULT_FONT, FONT_KEYS, FONT_NAMES};

#[test]
fn parse_font_name_strips_description() {
    assert_eq!(
        parse_font_name("DejaVu Sans Mono   (best Unicode — MapSCII, box drawing)"),
        "DejaVu Sans Mono"
    );
    assert_eq!(
        parse_font_name("JetBrains Mono     (clean, modern, ligatures)"),
        "JetBrains Mono"
    );
}

#[test]
fn parse_font_name_plain_name() {
    assert_eq!(parse_font_name("DejaVu Sans Mono"), "DejaVu Sans Mono");
}

#[test]
fn parse_font_name_empty() {
    assert_eq!(parse_font_name(""), "");
}

#[test]
fn font_constants_not_empty() {
    assert!(!FONT_NAMES.is_empty());
    assert!(!FONT_KEYS.is_empty());
    assert!(!DEFAULT_FONT.is_empty());
}

#[test]
fn every_wizard_name_reads_as_its_key_and_keys_read_as_themselves() {
    for i in 0..FONT_NAMES.len() {
        assert_eq!(parse_font_name(FONT_NAMES[i]), FONT_KEYS[i]);
        assert_eq!(parse_font_name(FONT_KEYS[i]), FONT_KEYS[i]);
        assert_eq!(parse_font_name(parse_font_name(FONT_NAMES[i])), FONT_KEYS[i]);
    }
    assert_eq!(parse_font_name(""), "");
}
