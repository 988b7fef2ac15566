use demo_stage::browser::{local_file_path, VIEW_FPS};

#[test]
fn local_file_path_extracts_from_file_url() {
    // Non-existent file should error (file doesn't exist)
    let result = local_file_path("file:///tmp/nonexistent_test_file_12345.pdf");
    assert!(result.is_err());
}

#[test]
fn local_file_path_extracts_from_localhost_url() {
    // Non-existent file should error
    let result = local_file_path("http://127.0.0.1:8080/nonexistent.pdf");
    assert!(result.is_err());
}

#[test]
fn local_file_path_rejects_non_local_url() {
    let result = local_file_path("https://example.com/page.html");
    assert!(result.is_err());
    let err = result.unwrap_err().message();
    assert!(err.contains("can't extract path"));
}

#[test]
fn local_file_path_rejects_localhost_without_path() {
    let result = local_file_path("http://127.0.0.1:8080");
    assert!(result.is_err());
    let err = result.unwrap_err().message();
    assert!(err.contains("can't extract path"));
}

#[test]
fn local_file_path_rejects_file_url_without_path() {
    let result = local_file_path("file://");
    assert!(result.is_err());
}

#[test]
fn local_file_path_rejects_ftp_url() {
    let result = local_file_path("ftp://example.com/file.pdf");
    assert!(result.is_err());
}

#[test]
fn view_fps_constant() {
    assert_eq!(VIEW_FPS, 8);
}
