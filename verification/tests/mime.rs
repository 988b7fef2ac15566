use demo_stage::mime::guess_mime;

#[test]
fn mime_type_detection() {
    assert_eq!(guess_mime("doc.pdf"), "application/pdf");
    assert_eq!(guess_mime("image.png"), "image/png");
    assert_eq!(guess_mime("page.html"), "text/html");
    assert_eq!(guess_mime("page.htm"), "text/html");
    assert_eq!(guess_mime("style.css"), "text/css");
    assert_eq!(guess_mime("app.js"), "application/javascript");
    assert_eq!(guess_mime("photo.jpg"), "image/jpeg");
    assert_eq!(guess_mime("photo.jpeg"), "image/jpeg");
    assert_eq!(guess_mime("animation.gif"), "image/gif");
    assert_eq!(guess_mime("icon.svg"), "image/svg+xml");
    assert_eq!(
        guess_mime("data.bin"),
        "application/octet-stream"
    );
}

#[test]
fn mime_type_case_insensitive() {
    assert_eq!(guess_mime("DOC.PDF"), "application/pdf");
    assert_eq!(guess_mime("IMAGE.PNG"), "image/png");
}

#[test]
fn mime_type_no_extension() {
    assert_eq!(
        guess_mime("Makefile"),
        "application/octet-stream"
    );
    assert_eq!(guess_mime("README"), "application/octet-stream");
}

#[test]
fn guess_mime_webp() {
    assert_eq!(
        guess_mime("image.webp"),
        "application/octet-stream"
    );
}

#[test]
fn guess_mime_avif() {
    assert_eq!(
        guess_mime("image.avif"),
        "application/octet-stream"
    );
}

#[test]
fn guess_mime_png() {
    assert_eq!(guess_mime("photo.png"), "image/png");
}

#[test]
fn guess_mime_txt() {
    assert_eq!(
        guess_mime("readme.txt"),
        "application/octet-stream"
    );
}

#[test]
fn guess_mime_json() {
    assert_eq!(
        guess_mime("data.json"),
        "application/octet-stream"
    );
}

#[test]
fn guess_mime_xml() {
    assert_eq!(
        guess_mime("data.xml"),
        "application/octet-stream"
    );
}

#[test]
fn guess_mime_mp4() {
    assert_eq!(
        guess_mime("video.mp4"),
        "application/octet-stream"
    );
}

#[test]
fn guess_mime_webm() {
    assert_eq!(
        guess_mime("video.webm"),
        "application/octet-stream"
    );
}

#[test]
fn guess_mime_woff() {
    assert_eq!(
        guess_mime("font.woff"),
        "application/octet-stream"
    );
}

#[test]
fn guess_mime_woff2() {
    assert_eq!(
        guess_mime("font.woff2"),
        "application/octet-stream"
    );
}

#[test]
fn guess_mime_ttf() {
    assert_eq!(
        guess_mime("font.ttf"),
        "application/octet-stream"
    );
}

#[test]
fn guess_mime_otf() {
    assert_eq!(
        guess_mime("font.otf"),
        "application/octet-stream"
    );
}

#[test]
fn guess_mime_wasm() {
    assert_eq!(
        guess_mime("module.wasm"),
        "application/octet-stream"
    );
}
