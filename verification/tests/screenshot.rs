use demo_stage::screenshot::png_to_rgba;

fn encode(width: u32, height: u32, color: png::ColorType, pixels: &[u8]) -> Vec<u8> {
    let mut buf = std::io::Cursor::new(Vec::new());
    {
        let mut encoder = png::Encoder::new(&mut buf, width, height);
        encoder.set_color(color);
        encoder.set_depth(png::BitDepth::Eight);
        let mut writer = encoder.write_header().unwrap();
        writer.write_image_data(pixels).unwrap();
        writer.finish().unwrap();
    }
    buf.into_inner()
}

#[test]
fn png_to_rgba_rejects_invalid_png() {
    let result = png_to_rgba(&[0, 1, 2, 3], 10, 10);
    assert!(result.is_err());
    assert!(result.unwrap_err().message().starts_with("png: "));
}

#[test]
fn png_to_rgba_converts_valid_png() {
    let pixels: Vec<u8> = vec![
        255, 0, 0, 255, 0, 255, 0, 255, 0, 0, 255, 255, 255, 255, 0, 255,
    ];
    let png_bytes = encode(2, 2, png::ColorType::Rgba, &pixels);
    let rgba = png_to_rgba(&png_bytes, 2, 2).unwrap();
    assert_eq!(rgba.len(), 2 * 2 * 4);
    // Top-left pixel should be red
    assert_eq!(&rgba[0..4], &[255, 0, 0, 255]);
    // Top-right pixel should be green
    assert_eq!(&rgba[4..8], &[0, 255, 0, 255]);
}

#[test]
fn png_to_rgba_crops_to_target_size() {
    let pixels: Vec<u8> = (0..4 * 4 * 3).map(|i| i as u8).collect();
    let png_bytes = encode(4, 4, png::ColorType::Rgb, &pixels);
    // Target is 2x2 — should crop to top-left
    let rgba = png_to_rgba(&png_bytes, 2, 2).unwrap();
    assert_eq!(rgba.len(), 2 * 2 * 4);
    for px in rgba.chunks(4) {
        assert_eq!(px[3], 255);
    }
    // Second row starts at source pixel (0, 1): bytes 12..15.
    assert_eq!(&rgba[8..12], &[12, 13, 14, 255]);
}

#[test]
fn png_to_rgba_pads_when_target_larger() {
    let png_bytes = encode(1, 1, png::ColorType::Rgb, &[255, 128, 64]);
    // Target is 3x3 — should have the pixel at (0,0) and zeros elsewhere
    let rgba = png_to_rgba(&png_bytes, 3, 3).unwrap();
    assert_eq!(rgba.len(), 3 * 3 * 4);
    assert_eq!(&rgba[0..4], &[255, 128, 64, 255]);
    // Second pixel should be black
    assert_eq!(&rgba[4..8], &[0, 0, 0, 0]);
}

#[test]
fn png_to_rgba_rejects_unsupported_color_type() {
    let png_bytes = encode(1, 1, png::ColorType::Grayscale, &[128]);
    let result = png_to_rgba(&png_bytes, 1, 1);
    assert!(result.is_err());
    let err = result.unwrap_err().message();
    assert!(err.contains("unsupported screenshot format"));
    assert_eq!(err, "unsupported screenshot format: Grayscale");
}
