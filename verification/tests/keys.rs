use demo_stage::shell::key_to_bytes;
use demo_stage::shell::sh_single_quote;
use demo_stage::shell::DEFAULT_PROMPT;

#[test]
fn maps_named_keys() {
    assert_eq!(key_to_bytes("enter"), vec![b'\r']);
    assert_eq!(key_to_bytes("ctrl+c"), vec![0x03]);
    assert_eq!(key_to_bytes("ctrl+a"), vec![0x01]);
    assert_eq!(key_to_bytes("tab"), vec![b'\t']);
    assert_eq!(key_to_bytes("a"), b"a".to_vec());
    assert_eq!(key_to_bytes("up"), vec![0x1b, b'[', b'A']);
}

#[test]
fn single_quotes_prompts_safely() {
    // The default prompt (colour escapes and all) is wrapped verbatim.
    assert_eq!(
        sh_single_quote(DEFAULT_PROMPT),
        format!("'{DEFAULT_PROMPT}'")
    );
    assert_eq!(sh_single_quote("$ "), "'$ '");
    // An embedded quote can't break out of the assignment.
    assert_eq!(sh_single_quote("a'b"), "'a'\\''b'");
}

#[test]
fn single_characters_are_read_lowered() {
    assert_eq!(key_to_bytes("A"), b"a".to_vec());
    assert_eq!(key_to_bytes("a"), b"a".to_vec());
    assert_eq!(key_to_bytes("ENTER"), vec![b'\r']);
    assert_eq!(key_to_bytes("Ctrl+A"), vec![0x01]);
    assert_eq!(key_to_bytes("é"), "é".as_bytes().to_vec());
}
