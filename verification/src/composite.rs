//! Multi-pane compositor: each pane's RGBA sub-frame is blitted onto a
//! shared canvas at its position, later panes over earlier ones, everything
//! clipped to the canvas.

use vstd::prelude::*;

verus! {

/// One pane's contribution to a composited frame: an RGBA buffer of `w`×`h`
/// placed at `(x, y)` on the canvas. The buffer is row-major and is expected
/// to hold `w * h * 4` bytes; a shorter one is clipped pixel by pixel.
pub struct Layer<'a> {
    pub x: usize,
    pub y: usize,
    pub w: usize,
    pub h: usize,
    pub rgba: &'a [u8],
}

/// Byte offset of channel `k` of canvas pixel `(px, py)` on a canvas `cw` wide.
pub open spec fn idx(cw: int, px: int, py: int, k: int) -> int {
    (py * cw + px) * 4 + k
}

/// Index of the pixel of `l` that lands on canvas pixel `(px, py)`.
pub open spec fn src_pixel(l: Layer, px: int, py: int) -> int {
    (py - l.y) * l.w + (px - l.x)
}

/// Whether layer `l` paints canvas pixel `(px, py)`: the pixel lies in the
/// layer's rectangle and the layer's buffer holds all four bytes for it.
pub open spec fn covers(l: Layer, px: int, py: int) -> bool {
    &&& l.x <= px < l.x + l.w
    &&& l.y <= py < l.y + l.h
    &&& src_pixel(l, px, py) * 4 + 4 <= l.rgba@.len()
}

/// Channel `k` of canvas pixel `(px, py)` once the first `n` layers are drawn
/// over a background `bg`: the alpha channel is always opaque; a colour
/// channel comes from the last layer that covers the pixel, else from `bg`.
pub open spec fn painted(bg: Seq<u8>, layers: Seq<Layer>, n: int, px: int, py: int, k: int) -> u8
    decreases n,
{
    if n <= 0 {
        if k == 3 {
            255
        } else {
            bg[k]
        }
    } else if k < 3 && covers(layers[n - 1], px, py) {
        layers[n - 1].rgba@[src_pixel(layers[n - 1], px, py) * 4 + k]
    } else {
        painted(bg, layers, n - 1, px, py, k)
    }
}

/// Every composited pixel is opaque, however many layers are drawn.
pub proof fn lemma_painted_opaque(bg: Seq<u8>, layers: Seq<Layer>, n: int, px: int, py: int)
    ensures
        painted(bg, layers, n, px, py, 3) == 255,
    decreases n,
{
    if n > 0 {
        lemma_painted_opaque(bg, layers, n - 1, px, py);
    }
}

proof fn lemma_idx_bounds(cw: int, ch: int, px: int, py: int, k: int)
    requires
        0 <= px < cw,
        0 <= py < ch,
        0 <= k < 4,
    ensures
        0 <= py * cw + px < cw * ch,
        0 <= idx(cw, px, py, k) < cw * ch * 4,
{
    assert(0 <= py * cw) by (nonlinear_arith)
        requires
            0 <= py,
            0 <= cw,
    ;
    assert(py * cw + px < cw * ch) by (nonlinear_arith)
        requires
            0 <= px < cw,
            0 <= py < ch,
    ;
}

proof fn lemma_idx_inj(cw: int, px: int, py: int, k: int, qx: int, qy: int, j: int)
    requires
        0 <= px < cw,
        0 <= qx < cw,
        0 <= py,
        0 <= qy,
        0 <= k < 4,
        0 <= j < 4,
        idx(cw, px, py, k) == idx(cw, qx, qy, j),
    ensures
        px == qx,
        py == qy,
        k == j,
{
    let a = py * cw + px;
    let b = qy * cw + qx;
    assert(a == b && k == j);
    if py < qy {
        assert(py * cw + px < qy * cw + qx) by (nonlinear_arith)
            requires
                py < qy,
                0 <= px < cw,
                0 <= qx,
        ;
    } else if qy < py {
        assert(qy * cw + qx < py * cw + px) by (nonlinear_arith)
            requires
                qy < py,
                0 <= qx < cw,
                0 <= px,
        ;
    }
}

/// Paint canvas pixel `(cx, cy)` with the colour `rgb`, fully opaque.
pub(crate) fn set_pixel(img: &mut Vec<u8>, cw: usize, ch: usize, cx: usize, cy: usize, rgb: [u8; 3])
    requires
        old(img)@.len() == cw * ch * 4,
        cw * ch * 4 <= usize::MAX,
        cx < cw,
        cy < ch,
    ensures
        final(img)@.len() == old(img)@.len(),
        forall|px: int, py: int, k: int|
            0 <= px < cw && 0 <= py < ch && 0 <= k < 4 ==> #[trigger] final(img)@[idx(
                cw as int,
                px,
                py,
                k,
            )] == if px == cx && py == cy {
                if k == 3 {
                    255u8
                } else {
                    rgb@[k]
                }
            } else {
                old(img)@[idx(cw as int, px, py, k)]
            },
{
    proof {
        lemma_idx_bounds(cw as int, ch as int, cx as int, cy as int, 3);
    }
    let d: usize = (cy * cw + cx) * 4;
    img.set(d, rgb[0]);
    img.set(d + 1, rgb[1]);
    img.set(d + 2, rgb[2]);
    img.set(d + 3, 255);
    proof {
        assert forall|px: int, py: int, k: int|
            0 <= px < cw && 0 <= py < ch && 0 <= k < 4 implies #[trigger] img@[idx(
                cw as int,
                px,
                py,
                k,
            )] == if px == cx && py == cy {
                if k == 3 {
                    255u8
                } else {
                    rgb@[k]
                }
            } else {
                old(img)@[idx(cw as int, px, py, k)]
            } by {
            lemma_idx_bounds(cw as int, ch as int, px, py, k);
            let i = idx(cw as int, px, py, k);
            if i >= d && i < d + 4 {
                lemma_idx_inj(cw as int, px, py, k, cx as int, cy as int, i - d);
            }
        }
    }
}

/// Composite `layers` onto a `canvas_w`×`canvas_h` canvas filled with `bg`.
/// Layers are drawn in order (later layers on top) and clipped to the canvas;
/// every pixel of the result is opaque.
pub fn composite(canvas_w: usize, canvas_h: usize, bg: [u8; 3], layers: &[Layer]) -> (img: Vec<u8>)
    requires
        canvas_w * canvas_h * 4 <= usize::MAX,
    ensures
        img@.len() == canvas_w * canvas_h * 4,
        forall|px: int, py: int, k: int|
            0 <= px < canvas_w && 0 <= py < canvas_h && 0 <= k < 4 ==> #[trigger] img@[idx(
                canvas_w as int,
                px,
                py,
                k,
            )] == painted(bg@, layers@, layers@.len() as int, px, py, k),
{
    let cw = canvas_w;
    let ch = canvas_h;
    let n: usize = cw * ch;
    let mut img: Vec<u8> = Vec::new();
    for t in 0..n
        invariant
            n == cw * ch,
            cw * ch * 4 <= usize::MAX,
            img@.len() == t * 4,
            forall|s: int, k: int|
                0 <= s < t && 0 <= k < 4 ==> #[trigger] img@[s * 4 + k] == painted(
                    bg@,
                    layers@,
                    0,
                    0,
                    0,
                    k,
                ),
    {
        img.push(bg[0]);
        img.push(bg[1]);
        img.push(bg[2]);
        img.push(255);
    }
    proof {
        assert forall|px: int, py: int, k: int|
            0 <= px < cw && 0 <= py < ch && 0 <= k < 4 implies #[trigger] img@[idx(
                cw as int,
                px,
                py,
                k,
            )] == painted(bg@, layers@, 0, px, py, k) by {
            lemma_idx_bounds(cw as int, ch as int, px, py, k);
            let s = py * cw + px;
            assert(img@[s * 4 + k] == painted(bg@, layers@, 0, 0, 0, k));
        }
    }
    for i in 0..layers.len()
        invariant
            cw * ch * 4 <= usize::MAX,
            img@.len() == cw * ch * 4,
            forall|px: int, py: int, k: int|
                0 <= px < cw && 0 <= py < ch && 0 <= k < 4 ==> #[trigger] img@[idx(
                    cw as int,
                    px,
                    py,
                    k,
                )] == painted(bg@, layers@, i as int, px, py, k),
    {
        let layer = &layers[i];
        let ghost prev = img@;
        let rows: usize = if layer.y >= ch {
            0
        } else if layer.h < ch - layer.y {
            layer.h
        } else {
            ch - layer.y
        };
        let cols: usize = if layer.x >= cw {
            0
        } else if layer.w < cw - layer.x {
            layer.w
        } else {
            cw - layer.x
        };
        let rlen: usize = layer.rgba.len();
        let quads: usize = rlen / 4;
        for ry in 0..rows
            invariant
                *layer == layers@[i as int],
                0 <= i < layers@.len(),
                rows <= layer.h,
                rows == 0 || layer.y + rows <= ch,
                rows < layer.h ==> layer.y + rows >= ch,
                cols <= layer.w,
                cols == 0 || layer.x + cols <= cw,
                cols < layer.w ==> layer.x + cols >= cw,
                quads == layer.rgba@.len() / 4,
                quads <= usize::MAX / 4,
                cw * ch * 4 <= usize::MAX,
                prev.len() == cw * ch * 4,
                img@.len() == cw * ch * 4,
                forall|px: int, py: int, k: int|
                    0 <= px < cw && 0 <= py < ch && 0 <= k < 4 ==> #[trigger] prev[idx(
                        cw as int,
                        px,
                        py,
                        k,
                    )] == painted(bg@, layers@, i as int, px, py, k),
                forall|px: int, py: int, k: int|
                    0 <= px < cw && 0 <= py < ch && 0 <= k < 4 ==> #[trigger] img@[idx(
                        cw as int,
                        px,
                        py,
                        k,
                    )] == if py < layer.y + ry {
                        painted(bg@, layers@, i + 1, px, py, k)
                    } else {
                        prev[idx(cw as int, px, py, k)]
                    },
        {
            let cy: usize = layer.y + ry;
            let ghost before_row = img@;
            for rx in 0..cols
                invariant
                    *layer == layers@[i as int],
                    0 <= i < layers@.len(),
                    ry < rows,
                    cy == layer.y + ry,
                    rows <= layer.h,
                    layer.y + rows <= ch,
                    cols <= layer.w,
                    cols == 0 || layer.x + cols <= cw,
                    cols < layer.w ==> layer.x + cols >= cw,
                    quads == layer.rgba@.len() / 4,
                quads <= usize::MAX / 4,
                    cw * ch * 4 <= usize::MAX,
                    img@.len() == cw * ch * 4,
                    before_row.len() == cw * ch * 4,
                    forall|px: int, py: int, k: int|
                        0 <= px < cw && 0 <= py < ch && 0 <= k < 4 ==> #[trigger] before_row[idx(
                            cw as int,
                            px,
                            py,
                            k,
                        )] == if py < cy {
                            painted(bg@, layers@, i + 1, px, py, k)
                        } else {
                            painted(bg@, layers@, i as int, px, py, k)
                        },
                    forall|px: int, py: int, k: int|
                        0 <= px < cw && 0 <= py < ch && 0 <= k < 4 ==> #[trigger] img@[idx(
                            cw as int,
                            px,
                            py,
                            k,
                        )] == if py == cy && px < layer.x + rx {
                            painted(bg@, layers@, i + 1, px, py, k)
                        } else {
                            before_row[idx(cw as int, px, py, k)]
                        },
            {
                let cx: usize = layer.x + rx;
                let p: Option<usize> = match ry.checked_mul(layer.w) {
                    Some(m) => m.checked_add(rx),
                    None => None,
                };
                match p {
                    Some(p) => {
                        if p < quads {
                            assert(p * 4 + 4 <= layer.rgba@.len());
                            let s: usize = p * 4;
                            let rgb: [u8; 3] = [layer.rgba[s], layer.rgba[s + 1], layer.rgba[s + 2]];
                            let ghost mid = img@;
                            set_pixel(&mut img, cw, ch, cx, cy, rgb);
                            proof {
                                lemma_painted_opaque(bg@, layers@, i as int, cx as int, cy as int);
                                assert(covers(*layer, cx as int, cy as int));
                                assert(src_pixel(*layer, cx as int, cy as int) == p);
                            }
                        } else {
                            proof {
                                assert(!covers(*layer, cx as int, cy as int));
                            }
                        }
                    },
                    None => {
                        proof {
                            assert(ry * layer.w + rx > usize::MAX);
                            assert(!covers(*layer, cx as int, cy as int));
                        }
                    },
                }
                proof {
                    assert forall|px: int, py: int, k: int|
                        0 <= px < cw && 0 <= py < ch && 0 <= k < 4 && py == cy && px == cx
                            implies #[trigger] img@[idx(cw as int, px, py, k)] == painted(
                            bg@,
                            layers@,
                            i + 1,
                            px,
                            py,
                            k,
                        ) by {}
                }
            }
            proof {
                assert forall|px: int, py: int, k: int|
                    0 <= px < cw && 0 <= py < ch && 0 <= k < 4 implies #[trigger] img@[idx(
                        cw as int,
                        px,
                        py,
                        k,
                    )] == if py < layer.y + ry + 1 {
                        painted(bg@, layers@, i + 1, px, py, k)
                    } else {
                        prev[idx(cw as int, px, py, k)]
                    } by {
                    if py == cy && px >= layer.x + cols {
                        assert(!covers(*layer, px, py));
                    }
                }
            }
        }
        proof {
            assert forall|px: int, py: int, k: int|
                0 <= px < cw && 0 <= py < ch && 0 <= k < 4 implies #[trigger] img@[idx(
                    cw as int,
                    px,
                    py,
                    k,
                )] == painted(bg@, layers@, i + 1, px, py, k) by {
                if py >= layer.y + rows {
                    assert(!covers(*layer, px, py));
                }
            }
        }
    }
    img
}

} // verus!
