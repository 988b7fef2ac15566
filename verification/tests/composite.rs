use demo_stage::composite::{composite, Layer};

fn at(img: &[u8], w: usize, x: usize, y: usize) -> [u8; 3] {
    let p = (y * w + x) * 4;
    [img[p], img[p + 1], img[p + 2]]
}

#[test]
fn fills_background_when_no_layers() {
    let img = composite(2, 2, [10, 20, 30], &[]);
    assert_eq!(at(&img, 2, 0, 0), [10, 20, 30]);
    assert_eq!(at(&img, 2, 1, 1), [10, 20, 30]);
}

#[test]
fn blits_two_panes_side_by_side() {
    // 4x2 canvas; left 2x2 red, right 2x2 green.
    let red = [255, 0, 0, 255].repeat(4); // 2x2
    let green = [0, 255, 0, 255].repeat(4);
    let img = composite(
        4,
        2,
        [0, 0, 0],
        &[
            Layer {
                x: 0,
                y: 0,
                w: 2,
                h: 2,
                rgba: &red,
            },
            Layer {
                x: 2,
                y: 0,
                w: 2,
                h: 2,
                rgba: &green,
            },
        ],
    );
    assert_eq!(at(&img, 4, 0, 0), [255, 0, 0]);
    assert_eq!(at(&img, 4, 1, 1), [255, 0, 0]);
    assert_eq!(at(&img, 4, 2, 0), [0, 255, 0]);
    assert_eq!(at(&img, 4, 3, 1), [0, 255, 0]);
}

#[test]
fn clips_layers_outside_the_canvas() {
    // 2x2 layer placed so half hangs off the right/bottom edge.
    let white = [255, 255, 255, 255].repeat(4);
    let img = composite(
        2,
        2,
        [0, 0, 0],
        &[Layer {
            x: 1,
            y: 1,
            w: 2,
            h: 2,
            rgba: &white,
        }],
    );
    // only (1,1) is inside the canvas
    assert_eq!(at(&img, 2, 0, 0), [0, 0, 0]);
    assert_eq!(at(&img, 2, 1, 1), [255, 255, 255]);
}

#[test]
fn later_layers_paint_over_earlier() {
    let red = [255u8, 0, 0, 255];
    let blue = [0u8, 0, 255, 255];
    let img = composite(
        1,
        1,
        [0, 0, 0],
        &[
            Layer {
                x: 0,
                y: 0,
                w: 1,
                h: 1,
                rgba: &red,
            },
            Layer {
                x: 0,
                y: 0,
                w: 1,
                h: 1,
                rgba: &blue,
            },
        ],
    );
    assert_eq!(at(&img, 1, 0, 0), [0, 0, 255]);
}

#[test]
fn clips_short_rgba_buffer() {
    // A layer with a buffer shorter than w*h*4 should not panic.
    let short_buf = [255u8, 128, 0, 255, 255, 128, 0, 255]; // only 2 pixels for a 2x2 layer
    let img = composite(
        3,
        3,
        [0, 0, 0],
        &[Layer {
            x: 0,
            y: 0,
            w: 2,
            h: 2,
            rgba: &short_buf,
        }],
    );
    // First pixel should be painted, the rest should stay background.
    assert_eq!(at(&img, 3, 0, 0), [255, 128, 0]);
}

#[test]
fn layer_completely_outside_canvas() {
    let red = [255u8, 0, 0, 255].repeat(4);
    let img = composite(
        2,
        2,
        [10, 10, 10],
        &[Layer {
            x: 10,
            y: 10,
            w: 2,
            h: 2,
            rgba: &red,
        }],
    );
    // Canvas should remain all background.
    assert_eq!(at(&img, 2, 0, 0), [10, 10, 10]);
}
