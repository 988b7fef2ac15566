use demo_stage::export::{
    is_localhost_wizard_url, needs_local_server, resolve_output, rewrite_local_urls,
    rewrite_wizard_url, sanitize, LocalServer,
};
use demo_stage::model::{DemoMeta, Layout, Pane, PaneKind, Score};
use std::path::PathBuf;

#[test]
fn sanitize_replaces_unsafe_chars() {
    assert_eq!(sanitize("my demo!"), "my-demo-");
    assert_eq!(sanitize("ok_name-1"), "ok_name-1");
    assert_eq!(sanitize("a/b\\c"), "a-b-c");
}

#[test]
fn is_localhost_wizard_url_true() {
    assert!(is_localhost_wizard_url("http://127.0.0.1:8080/file.pdf"));
    assert!(is_localhost_wizard_url("http://127.0.0.1:3000/"));
}

#[test]
fn is_localhost_wizard_url_false() {
    assert!(!is_localhost_wizard_url("https://example.com"));
    assert!(!is_localhost_wizard_url("http://localhost:3000/"));
    assert!(!is_localhost_wizard_url("file:///tmp/test.pdf"));
}

#[test]
fn rewrite_wizard_url_changes_port() {
    let url = "http://127.0.0.1:8080/home/user/doc.pdf";
    assert_eq!(
        rewrite_wizard_url(url, 9001),
        "http://127.0.0.1:9001/home/user/doc.pdf"
    );
}

#[test]
fn rewrite_wizard_url_no_path() {
    let url = "http://127.0.0.1:8080";
    assert_eq!(rewrite_wizard_url(url, 9001), url);
}

#[test]
fn sanitize_empty_string() {
    assert_eq!(sanitize(""), "");
}

#[test]
fn sanitize_all_special_chars() {
    assert_eq!(sanitize("!@#$%^&*()"), "----------");
}

#[test]
fn sanitize_preserves_underscores() {
    assert_eq!(sanitize("my_demo_name"), "my_demo_name");
}

#[test]
fn sanitize_preserves_hyphens() {
    assert_eq!(sanitize("my-demo-name"), "my-demo-name");
}

#[test]
fn is_localhost_wizard_url_with_port_only() {
    assert!(is_localhost_wizard_url("http://127.0.0.1:8080"));
}

#[test]
fn is_localhost_wizard_url_with_path() {
    assert!(is_localhost_wizard_url("http://127.0.0.1:3000/page.html"));
}

#[test]
fn is_localhost_wizard_url_localhost_not_127() {
    assert!(!is_localhost_wizard_url("http://localhost:3000/"));
}

#[test]
fn is_localhost_wizard_url_https() {
    assert!(!is_localhost_wizard_url("https://127.0.0.1:8080/"));
}

#[test]
fn rewrite_wizard_url_with_complex_path() {
    let url = "http://127.0.0.1:8080/home/user/file.pdf?query=1";
    assert_eq!(
        rewrite_wizard_url(url, 9001),
        "http://127.0.0.1:9001/home/user/file.pdf?query=1"
    );
}

fn pane(id: &str, kind: PaneKind, url: Option<&str>) -> Pane {
    Pane {
        id: id.into(),
        kind,
        x: 0,
        y: 0,
        width: 100,
        height: 100,
        font_family: None,
        font_size: None,
        url: url.map(|u| u.into()),
        theme: None,
        ignore_speed: false,
    }
}

fn score_with(name: &str, output_dir: &str, panes: Vec<Pane>) -> Score {
    Score {
        demo: DemoMeta {
            name: name.into(),
            output_dir: output_dir.into(),
            prompt: None,
            speed: None,
            targets: None,
        },
        sources: vec![],
        layout: Layout {
            width: 100,
            height: 100,
            fps: 15,
            background: None,
            font_family: None,
            font_size: None,
            panes,
        },
        timeline: vec![],
    }
}

fn browser_score(url: &str) -> Score {
    score_with(
        "t",
        "./dist",
        vec![pane("main", PaneKind::Terminal, None), pane("b", PaneKind::Browser, Some(url))],
    )
}

#[test]
fn rewrite_url_absolute_unix_path() {
    let server = LocalServer::with_port(9999);
    let rewritten = server.rewrite_url("file:///home/user/doc.pdf");
    assert_eq!(rewritten, "http://127.0.0.1:9999/home/user/doc.pdf");
}

#[test]
fn rewrite_url_leaves_http_unchanged() {
    let server = LocalServer::with_port(9999);
    let url = "http://example.com/page.html";
    assert_eq!(server.rewrite_url(url), url);
}

#[test]
fn rewrite_url_with_relative_path() {
    let server = LocalServer::with_port(8080);
    let rewritten = server.rewrite_url("file:///tmp/test.html");
    assert_eq!(rewritten, "http://127.0.0.1:8080/tmp/test.html");
}

#[test]
fn rewrite_url_file_double_slash() {
    let server = LocalServer::with_port(5555);
    let rewritten = server.rewrite_url("file:///a/b/c");
    assert_eq!(rewritten, "http://127.0.0.1:5555/a/b/c");
}

#[test]
fn rewrite_url_file_single_slash() {
    let server = LocalServer::with_port(7777);
    let rewritten = server.rewrite_url("file://a/b");
    assert_eq!(rewritten, "http://127.0.0.1:7777/a/b");
}

#[test]
fn rewrite_url_ftp_unchanged() {
    let server = LocalServer::with_port(9999);
    assert_eq!(
        server.rewrite_url("ftp://example.com/file"),
        "ftp://example.com/file"
    );
}

#[test]
fn rewrite_url_data_unchanged() {
    let server = LocalServer::with_port(1234);
    assert_eq!(
        server.rewrite_url("data:text/html,<h1>Hi</h1>"),
        "data:text/html,<h1>Hi</h1>"
    );
}

#[test]
fn rewrite_url_blob_unchanged() {
    let server = LocalServer::with_port(4321);
    assert_eq!(
        server.rewrite_url("blob:https://example.com/abc"),
        "blob:https://example.com/abc"
    );
}

#[test]
fn rewrite_url_file_root_path() {
    let server = LocalServer::with_port(8888);
    let rewritten = server.rewrite_url("file:///");
    assert_eq!(rewritten, "http://127.0.0.1:8888/");
    assert_eq!(server.port(), 8888);
}

#[test]
fn rewrite_local_urls_converts_file_to_http() {
    let score = browser_score("file:///tmp/test.pdf");
    let rewritten = rewrite_local_urls(score.clone(), 8080);
    let b = &rewritten.layout.panes[1];
    assert!(b.url.as_ref().unwrap().contains("8080"));
    assert!(b.url.as_ref().unwrap().starts_with("http://127.0.0.1:"));
    assert_eq!(b.url.as_deref(), Some("http://127.0.0.1:8080/tmp/test.pdf"));
}

#[test]
fn rewrite_local_urls_converts_wizard_url() {
    let score = browser_score("http://127.0.0.1:3000/page.html");
    let rewritten = rewrite_local_urls(score.clone(), 9000);
    let b = &rewritten.layout.panes[1];
    assert_eq!(b.url.as_deref(), Some("http://127.0.0.1:9000/page.html"));
}

#[test]
fn rewrite_local_urls_leaves_https_untouched() {
    let score = browser_score("https://example.com");
    let rewritten = rewrite_local_urls(score.clone(), 9000);
    let b = &rewritten.layout.panes[1];
    assert_eq!(b.url.as_deref(), Some("https://example.com"));
}

#[test]
fn rewrite_local_urls_no_browser_panes() {
    let score = score_with("t", "./dist", vec![pane("main", PaneKind::Terminal, None)]);
    let rewritten = rewrite_local_urls(score.clone(), 8080);
    assert_eq!(rewritten.layout.panes.len(), 1);
}

#[test]
fn rewrite_local_urls_multiple_panes() {
    let score = score_with(
        "t",
        "./dist",
        vec![
            pane("main", PaneKind::Terminal, None),
            pane("b1", PaneKind::Browser, Some("file:///tmp/test1.pdf")),
            pane("b2", PaneKind::Browser, Some("file:///tmp/test2.pdf")),
        ],
    );
    let rewritten = rewrite_local_urls(score.clone(), 8080);
    let b1 = &rewritten.layout.panes[1];
    let b2 = &rewritten.layout.panes[2];
    assert!(b1.url.as_ref().unwrap().contains("8080"));
    assert!(b2.url.as_ref().unwrap().contains("8080"));
}

#[test]
fn local_server_is_needed_only_for_local_pages() {
    assert!(needs_local_server(&browser_score("file:///tmp/x.pdf")));
    assert!(needs_local_server(&browser_score("http://127.0.0.1:3000/x")));
    assert!(!needs_local_server(&browser_score("https://example.com")));
}

#[test]
fn resolve_output_sanitizes_name() {
    let score = score_with("my demo!", "./dist", vec![]);
    let path = resolve_output(&score, "gif");
    assert_eq!(PathBuf::from(path), PathBuf::from("./dist/my-demo-.gif"));
}

#[test]
fn resolve_output_html() {
    let score = score_with("test", "./out", vec![]);
    let path = resolve_output(&score, "html");
    assert_eq!(PathBuf::from(path), PathBuf::from("./out/test.html"));
}

#[test]
fn resolve_output_custom_dir() {
    let score = score_with("test", "/tmp/demos", vec![]);
    let path = resolve_output(&score, "gif");
    assert_eq!(PathBuf::from(path), PathBuf::from("/tmp/demos/test.gif"));
}

#[test]
fn resolve_output_joins_like_a_path() {
    assert_eq!(resolve_output(&score_with("a", "out/", vec![]), "mp4"), "out/a.mp4");
    assert_eq!(resolve_output(&score_with("a", "", vec![]), "mp4"), "a.mp4");
}

#[test]
fn rewriting_local_urls_twice_changes_nothing_more() {
    for url in [
        "file:///home/user/doc.pdf",
        "file://./rel.html",
        "http://127.0.0.1:8001/tmp/a.png",
        "http://127.0.0.1:8001",
        "https://example.com/x",
    ] {
        let once = rewrite_local_urls(browser_score(url), 9001);
        let twice = rewrite_local_urls(once.clone(), 9001);
        assert_eq!(once.layout.panes[1].url, twice.layout.panes[1].url, "{url}");
    }
}
