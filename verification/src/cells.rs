//! Painting a terminal grid: each cell's background, then its glyph — a
//! coverage mask drawn in the foreground colour, alpha-blended and clipped to
//! the canvas.

use vstd::prelude::*;
use crate::composite::{idx, set_pixel};
use vstd::arithmetic::div_mod::lemma_fundamental_div_mod_converse;
use crate::raster::{ansi16, ansi16_spec, xterm256, xterm256_spec};

verus! {

/// A terminal cell's colour as the screen reports it.
#[derive(Debug, Clone, Copy, PartialEq, Eq, Structural)]
pub enum CellColor {
    /// The terminal's default colour.
    Default,
    /// An indexed colour of the 256-colour palette.
    Idx(u8),
    /// A true colour.
    Rgb(u8, u8, u8),
}

/// The RGB of a cell colour (`default` for the terminal default).
pub open spec fn resolve_spec(c: CellColor, default: Seq<u8>) -> Seq<u8> {
    match c {
        CellColor::Default => default,
        CellColor::Idx(i) => if i < 16 {
            ansi16_spec(i as int)
        } else {
            xterm256_spec(i as int)
        },
        CellColor::Rgb(r, g, b) => seq![r, g, b],
    }
}

/// Maps a cell colour to RGB.
pub fn resolve(c: CellColor, default: [u8; 3]) -> (r: [u8; 3])
    ensures
        r@ == resolve_spec(c, default@),
{
    match c {
        CellColor::Default => default,
        CellColor::Idx(i) => if i < 16 {
            ansi16(i)
        } else {
            xterm256(i)
        },
        CellColor::Rgb(r, g, b) => {
            let c: [u8; 3] = [r, g, b];
            assert(c@ =~= seq![r, g, b]);
            c
        },
    }
}

/// `fg` laid over `dst` with coverage `a` (out of 255).
pub open spec fn blend(fg: u8, dst: u8, a: u8) -> u8 {
    ((fg * a + dst * (255 - a)) / 255) as u8
}

/// The coverage a `gw`×`gh` mask `cov` placed at `(ox, top)` lays on canvas
/// pixel `(px, py)`: 0 outside the mask.
pub open spec fn mask_at(ox: int, top: int, gw: int, gh: int, cov: Seq<u8>, px: int, py: int) -> u8 {
    let gx = px - ox;
    let gy = py - top;
    if 0 <= gx < gw && 0 <= gy < gh {
        cov[gy * gw + gx]
    } else {
        0
    }
}

/// The mask's bytes hold every pixel of it that lands on the `w`×`h` canvas.
pub open spec fn mask_fits(w: int, h: int, ox: int, top: int, gw: int, gh: int, cov: Seq<u8>) -> bool {
    forall|gx: int, gy: int|
        0 <= gx < gw && 0 <= gy < gh && 0 <= ox + gx < w && 0 <= top + gy < h ==> #[trigger] (gy
            * gw + gx) < cov.len()
}

proof fn lemma_pixel_index(w: int, h: int, px: int, py: int, k: int)
    requires
        0 <= px < w,
        0 <= py < h,
        0 <= k < 4,
    ensures
        0 <= idx(w, px, py, k) < w * h * 4,
{
    assert(0 <= py * w) by (nonlinear_arith)
        requires
            0 <= py,
            0 <= w,
    ;
    assert(py * w + px < w * h) by (nonlinear_arith)
        requires
            0 <= px < w,
            0 <= py < h,
    ;
}

proof fn lemma_pixel_inj(w: int, px: int, py: int, k: int, qx: int, qy: int, j: int)
    requires
        0 <= px < w,
        0 <= qx < w,
        0 <= py,
        0 <= qy,
        0 <= k < 4,
        0 <= j < 4,
        idx(w, px, py, k) == idx(w, qx, qy, j),
    ensures
        px == qx,
        py == qy,
        k == j,
{
    if py < qy {
        assert(py * w + px < qy * w + qx) by (nonlinear_arith)
            requires
                py < qy,
                0 <= px < w,
                0 <= qx,
        ;
    } else if qy < py {
        assert(qy * w + qx < py * w + px) by (nonlinear_arith)
            requires
                qy < py,
                0 <= qx < w,
                0 <= px,
        ;
    }
}

/// Blends colour `fg` into canvas pixel `(px, py)` with coverage `a`.
fn blend_pixel(img: &mut Vec<u8>, w: usize, h: usize, px: usize, py: usize, a: u8, fg: [u8; 3])
    requires
        old(img)@.len() == w * h * 4,
        w * h * 4 <= usize::MAX,
        px < w,
        py < h,
    ensures
        final(img)@.len() == old(img)@.len(),
        forall|qx: int, qy: int, k: int|
            0 <= qx < w && 0 <= qy < h && 0 <= k < 4 ==> #[trigger] final(img)@[idx(
                w as int,
                qx,
                qy,
                k,
            )] == if qx == px && qy == py && k < 3 {
                blend(fg@[k], old(img)@[idx(w as int, qx, qy, k)], a)
            } else {
                old(img)@[idx(w as int, qx, qy, k)]
            },
{
    proof {
        lemma_pixel_index(w as int, h as int, px as int, py as int, 3);
    }
    let p: usize = (py * w + px) * 4;
    let mut k: usize = 0;
    while k < 3
        invariant
            0 <= k <= 3,
            img@.len() == old(img)@.len(),
            p == idx(w as int, px as int, py as int, 0),
            p + 3 < img@.len(),
            forall|j: int| 0 <= j < k ==> #[trigger] img@[p + j] == blend(fg@[j], old(img)@[p + j], a),
            forall|i: int| 0 <= i < img@.len() && !(p <= i < p + k) ==> #[trigger] img@[i] == old(img)@[i],
        decreases 3 - k,
    {
        let dst = img[p + k] as u32;
        let src = fg[k] as u32;
        let av = a as u32;
        assert(src * av <= 255 * 255 && dst * (255 - av) <= 255 * 255) by (nonlinear_arith)
            requires
                src <= 255,
                dst <= 255,
                av <= 255,
        ;
        let v = ((src * av + dst * (255 - av)) / 255) as u8;
        img.set(p + k, v);
        k += 1;
    }
    proof {
        assert forall|qx: int, qy: int, k: int|
            0 <= qx < w && 0 <= qy < h && 0 <= k < 4 implies #[trigger] img@[idx(
                w as int,
                qx,
                qy,
                k,
            )] == if qx == px && qy == py && k < 3 {
                blend(fg@[k], old(img)@[idx(w as int, qx, qy, k)], a)
            } else {
                old(img)@[idx(w as int, qx, qy, k)]
            } by {
            lemma_pixel_index(w as int, h as int, qx, qy, k);
            let i = idx(w as int, qx, qy, k);
            if p <= i < p + 3 {
                lemma_pixel_inj(w as int, qx, qy, k, px as int, py as int, i - p);
            }
        }
    }
}


/// Canvas pixel `(px, py)` lies on mask row below `gy`, or on row `gy` before
/// column `gx`: the part of a mask drawn so far.
pub open spec fn mask_done(ox: int, top: int, gw: int, gh: int, px: int, py: int, gy: int, gx: int) -> bool {
    let mx = px - ox;
    let my = py - top;
    &&& 0 <= mx < gw
    &&& 0 <= my < gh
    &&& (my < gy || (my == gy && mx < gx))
}

/// Alpha-blends a `gw`×`gh` coverage mask `cov` in colour `fg` onto the RGBA
/// canvas `img` (`w`×`h`) with its top-left corner at `(ox, top)`, clipped to
/// the canvas: each colour channel of a covered pixel becomes `fg` blended
/// over it (see `blend`); pixels with no coverage, and alpha, stay.
pub fn blit_glyph(
    img: &mut Vec<u8>,
    w: usize,
    h: usize,
    ox: i32,
    top: i32,
    gw: usize,
    gh: usize,
    cov: &[u8],
    fg: [u8; 3],
)
    requires
        old(img)@.len() == w * h * 4,
        w * h * 4 <= usize::MAX,
        gw <= i32::MAX,
        gh <= i32::MAX,
        ox + gw <= i32::MAX + 1,
        top + gh <= i32::MAX + 1,
        mask_fits(w as int, h as int, ox as int, top as int, gw as int, gh as int, cov@),
    ensures
        final(img)@.len() == old(img)@.len(),
        forall|px: int, py: int, k: int|
            0 <= px < w && 0 <= py < h && 0 <= k < 4 ==> #[trigger] final(img)@[idx(
                w as int,
                px,
                py,
                k,
            )] == ({
                let a = mask_at(ox as int, top as int, gw as int, gh as int, cov@, px, py);
                if k < 3 && a > 0 {
                    blend(fg@[k], old(img)@[idx(w as int, px, py, k)], a)
                } else {
                    old(img)@[idx(w as int, px, py, k)]
                }
            }),
{
    let mut gy: usize = 0;
    while gy < gh
        invariant
            0 <= gy <= gh,
            img@.len() == old(img)@.len(),
            old(img)@.len() == w * h * 4,
            w * h * 4 <= usize::MAX,
            gw <= i32::MAX,
            gh <= i32::MAX,
            ox + gw <= i32::MAX + 1,
            top + gh <= i32::MAX + 1,
            mask_fits(w as int, h as int, ox as int, top as int, gw as int, gh as int, cov@),
            forall|px: int, py: int, k: int|
                0 <= px < w && 0 <= py < h && 0 <= k < 4 ==> #[trigger] img@[idx(w as int, px, py, k)]
                    == ({
                    let a = mask_at(ox as int, top as int, gw as int, gh as int, cov@, px, py);
                    if k < 3 && a > 0 && mask_done(
                        ox as int,
                        top as int,
                        gw as int,
                        gh as int,
                        px,
                        py,
                        gy as int,
                        0,
                    ) {
                        blend(fg@[k], old(img)@[idx(w as int, px, py, k)], a)
                    } else {
                        old(img)@[idx(w as int, px, py, k)]
                    }
                }),
        decreases gh - gy,
    {
        let py: i64 = top as i64 + gy as i64;
        let mut gx: usize = 0;
        while gx < gw
            invariant
                0 <= gy < gh,
                0 <= gx <= gw,
                py == top + gy,
                img@.len() == old(img)@.len(),
                old(img)@.len() == w * h * 4,
                w * h * 4 <= usize::MAX,
                gw <= i32::MAX,
                gh <= i32::MAX,
                ox + gw <= i32::MAX + 1,
                top + gh <= i32::MAX + 1,
                mask_fits(w as int, h as int, ox as int, top as int, gw as int, gh as int, cov@),
                forall|px: int, qy: int, k: int|
                    0 <= px < w && 0 <= qy < h && 0 <= k < 4 ==> #[trigger] img@[idx(w as int, px, qy, k)]
                        == ({
                        let a = mask_at(ox as int, top as int, gw as int, gh as int, cov@, px, qy);
                        if k < 3 && a > 0 && mask_done(
                            ox as int,
                            top as int,
                            gw as int,
                            gh as int,
                            px,
                            qy,
                            gy as int,
                            gx as int,
                        ) {
                            blend(fg@[k], old(img)@[idx(w as int, px, qy, k)], a)
                        } else {
                            old(img)@[idx(w as int, px, qy, k)]
                        }
                    }),
            decreases gw - gx,
        {
            let pxc: i64 = ox as i64 + gx as i64;
            if py >= 0 && (py as u64) < h as u64 && pxc >= 0 && (pxc as u64) < w as u64 {
                let cy = py as usize;
                let cx = pxc as usize;
                let clen = cov.len();
                assert((gy * gw + gx) < clen);
                assert(gy * gw <= gy * gw + gx);
                let a = cov[gy * gw + gx];
                assert(a == mask_at(ox as int, top as int, gw as int, gh as int, cov@, cx as int, cy as int));
                if a != 0 {
                    let ghost before = img@;
                    blend_pixel(img, w, h, cx, cy, a, fg);
                    proof {
                        assert forall|px: int, qy: int, k: int|
                            0 <= px < w && 0 <= qy < h && 0 <= k < 4 implies #[trigger] img@[idx(
                                w as int,
                                px,
                                qy,
                                k,
                            )] == ({
                                let a = mask_at(ox as int, top as int, gw as int, gh as int, cov@, px, qy);
                                if k < 3 && a > 0 && mask_done(
                                    ox as int,
                                    top as int,
                                    gw as int,
                                    gh as int,
                                    px,
                                    qy,
                                    gy as int,
                                    gx + 1,
                                ) {
                                    blend(fg@[k], old(img)@[idx(w as int, px, qy, k)], a)
                                } else {
                                    old(img)@[idx(w as int, px, qy, k)]
                                }
                            }) by {
                            assert(before[idx(w as int, px, qy, k)] == ({
                                let a = mask_at(ox as int, top as int, gw as int, gh as int, cov@, px, qy);
                                if k < 3 && a > 0 && mask_done(
                                    ox as int,
                                    top as int,
                                    gw as int,
                                    gh as int,
                                    px,
                                    qy,
                                    gy as int,
                                    gx as int,
                                ) {
                                    blend(fg@[k], old(img)@[idx(w as int, px, qy, k)], a)
                                } else {
                                    old(img)@[idx(w as int, px, qy, k)]
                                }
                            }));
                        }
                    }
                }
            }
            gx += 1;
        }
        gy += 1;
    }
}

/// Paints the `cw`×`ch` rectangle at `(x0, y0)` of the canvas in `rgb`, opaque.
fn fill_rect(img: &mut Vec<u8>, w: usize, h: usize, x0: usize, y0: usize, cw: usize, ch: usize, rgb: [u8; 3])
    requires
        old(img)@.len() == w * h * 4,
        w * h * 4 <= usize::MAX,
        x0 + cw <= w,
        y0 + ch <= h,
    ensures
        final(img)@.len() == old(img)@.len(),
        forall|px: int, py: int, k: int|
            0 <= px < w && 0 <= py < h && 0 <= k < 4 ==> #[trigger] final(img)@[idx(
                w as int,
                px,
                py,
                k,
            )] == if x0 <= px < x0 + cw && y0 <= py < y0 + ch {
                if k == 3 {
                    255u8
                } else {
                    rgb@[k]
                }
            } else {
                old(img)@[idx(w as int, px, py, k)]
            },
{
    let mut y: usize = 0;
    while y < ch
        invariant
            0 <= y <= ch,
            img@.len() == old(img)@.len(),
            old(img)@.len() == w * h * 4,
            w * h * 4 <= usize::MAX,
            x0 + cw <= w,
            y0 + ch <= h,
            forall|px: int, py: int, k: int|
                0 <= px < w && 0 <= py < h && 0 <= k < 4 ==> #[trigger] img@[idx(w as int, px, py, k)]
                    == if x0 <= px < x0 + cw && y0 <= py < y0 + y {
                    if k == 3 {
                        255u8
                    } else {
                        rgb@[k]
                    }
                } else {
                    old(img)@[idx(w as int, px, py, k)]
                },
        decreases ch - y,
    {
        let mut x: usize = 0;
        while x < cw
            invariant
                0 <= y < ch,
                0 <= x <= cw,
                img@.len() == old(img)@.len(),
                old(img)@.len() == w * h * 4,
                w * h * 4 <= usize::MAX,
                x0 + cw <= w,
                y0 + ch <= h,
                forall|px: int, py: int, k: int|
                    0 <= px < w && 0 <= py < h && 0 <= k < 4 ==> #[trigger] img@[idx(w as int, px, py, k)]
                        == if x0 <= px < x0 + cw && (y0 <= py < y0 + y || (py == y0 + y && px < x0
                        + x)) {
                        if k == 3 {
                            255u8
                        } else {
                            rgb@[k]
                        }
                    } else {
                        old(img)@[idx(w as int, px, py, k)]
                    },
            decreases cw - x,
        {
            set_pixel(img, w, h, x0 + x, y0 + y, rgb);
            x += 1;
        }
        y += 1;
    }
}

/// The terminal's default foreground colour.
pub const DEFAULT_FG: [u8; 3] = [200, 200, 200];

/// What a cell draws over its background.
pub enum GlyphPaint {
    /// A block, box-drawing or braille glyph, drawn to fill the cell: its
    /// `cell_w`×`cell_h` coverage.
    Solid(Vec<u8>),
    /// A font glyph: its `width`×`height` coverage and its bottom offset
    /// `ymin` from the baseline.
    Font { width: usize, height: usize, ymin: i32, cov: Vec<u8> },
}

/// A screen cell to paint: its colours and glyph (none for an empty cell).
pub struct CellPaint {
    pub bg: CellColor,
    pub fg: CellColor,
    pub glyph: Option<GlyphPaint>,
}

/// The mask a cell at `(x0, y0)` draws — where it goes, its size and its
/// coverage: a solid glyph fills the cell; a font glyph is centred
/// horizontally (never left of the cell) and set on the baseline `ascent`
/// below the cell's top; an empty font glyph draws nothing.
pub open spec fn cell_mask(c: CellPaint, x0: int, y0: int, cw: int, ch: int, ascent: int) -> Option<
    (int, int, int, int, Seq<u8>),
> {
    match c.glyph {
        Some(GlyphPaint::Solid(cov)) => Some((x0, y0, cw, ch, cov@)),
        Some(GlyphPaint::Font { width, height, ymin, cov }) => if width == 0 || height == 0 {
            None
        } else {
            let d = cw - width;
            Some(
                (
                    x0 + if d > 0 {
                        d / 2
                    } else {
                        0
                    },
                    y0 + ascent - (height + ymin),
                    width as int,
                    height as int,
                    cov@,
                ),
            )
        },
        None => None,
    }
}

/// Channel `k` of pixel `(px, py)` after cell `c` at `(x0, y0)` is painted over
/// `prev`: its background fills the cell (opaque), then its mask blends its
/// foreground colour in.
pub open spec fn cell_px(
    c: CellPaint,
    x0: int,
    y0: int,
    cw: int,
    ch: int,
    ascent: int,
    default_bg: Seq<u8>,
    prev: u8,
    px: int,
    py: int,
    k: int,
) -> u8 {
    let bg = resolve_spec(c.bg, default_bg);
    let fg = resolve_spec(c.fg, DEFAULT_FG@);
    let filled: u8 = if x0 <= px < x0 + cw && y0 <= py < y0 + ch {
        if k == 3 {
            255
        } else {
            bg[k]
        }
    } else {
        prev
    };
    match cell_mask(c, x0, y0, cw, ch, ascent) {
        Some((ox, top, gw, gh, cov)) => {
            let a = mask_at(ox, top, gw, gh, cov, px, py);
            if k < 3 && a > 0 {
                blend(fg[k], filled, a)
            } else {
                filled
            }
        },
        None => filled,
    }
}

/// Channel `k` of pixel `(px, py)` once the first `n` cells (row-major,
/// `cols` to a row) are painted over a blank canvas.
pub open spec fn paint_px(
    cells: Seq<CellPaint>,
    n: int,
    cols: int,
    cw: int,
    ch: int,
    ascent: int,
    default_bg: Seq<u8>,
    px: int,
    py: int,
    k: int,
) -> u8
    decreases n,
{
    if n <= 0 {
        0
    } else {
        cell_px(
            cells[n - 1],
            ((n - 1) % cols) * cw,
            ((n - 1) / cols) * ch,
            cw,
            ch,
            ascent,
            default_bg,
            paint_px(cells, n - 1, cols, cw, ch, ascent, default_bg, px, py, k),
            px,
            py,
            k,
        )
    }
}

/// The bound on canvas sizes and glyph metrics the painter works within.
pub const PAINT_LIMIT: usize = 0x2000_0000;

/// A cell's glyph is within the painter's limits and its coverage holds its
/// whole mask.
pub open spec fn glyph_ok(c: CellPaint, cw: int, ch: int) -> bool {
    match c.glyph {
        Some(GlyphPaint::Solid(cov)) => cov@.len() >= cw * ch,
        Some(GlyphPaint::Font { width, height, ymin, cov }) => {
            &&& width <= PAINT_LIMIT
            &&& height <= PAINT_LIMIT
            &&& -(PAINT_LIMIT as int) <= ymin <= PAINT_LIMIT
            &&& cov@.len() >= width * height
        },
        None => true,
    }
}

proof fn lemma_mask_fits(w: int, h: int, ox: int, top: int, gw: int, gh: int, cov: Seq<u8>)
    requires
        0 <= gw,
        0 <= gh,
        cov.len() >= gw * gh,
    ensures
        mask_fits(w, h, ox, top, gw, gh, cov),
{
    assert forall|gx: int, gy: int|
        0 <= gx < gw && 0 <= gy < gh && 0 <= ox + gx < w && 0 <= top + gy < h implies #[trigger] (gy
            * gw + gx) < cov.len() by {
        assert(gy * gw + gx < gw * gh) by (nonlinear_arith)
            requires
                0 <= gx < gw,
                0 <= gy < gh,
        ;
    }
}

proof fn lemma_cell_origin(cols: int, cw: int, row: int, col: int, rows: int, ch: int)
    requires
        0 <= col < cols,
        0 <= row < rows,
        0 <= cw,
        0 <= ch,
    ensures
        (row * cols + col) % cols == col,
        (row * cols + col) / cols == row,
        col * cw + cw <= cols * cw,
        row * ch + ch <= rows * ch,
        0 <= row * cols + col < cols * rows,
        0 <= col * cw,
        0 <= row * ch,
{
    lemma_fundamental_div_mod_converse(row * cols + col, cols, row, col);
    assert(col * cw + cw <= cols * cw) by (nonlinear_arith)
        requires
            0 <= col < cols,
            0 <= cw,
    ;
    assert(row * ch + ch <= rows * ch) by (nonlinear_arith)
        requires
            0 <= row < rows,
            0 <= ch,
    ;
    assert(0 <= row * cols + col < cols * rows) by (nonlinear_arith)
        requires
            0 <= col < cols,
            0 <= row < rows,
    ;
    assert(0 <= col * cw && 0 <= row * ch) by (nonlinear_arith)
        requires
            0 <= col,
            0 <= row,
            0 <= cw,
            0 <= ch,
    ;
}

/// Paints the cells of a `cols`×`rows` screen (row-major) on a blank canvas of
/// `cols * cell_w` × `rows * cell_h` RGBA pixels: each cell's background, then
/// its glyph (see `cell_px`), with `default_bg` and `DEFAULT_FG` standing for
/// the terminal's default colours and `ascent` the baseline below each cell's
/// top.
pub fn render_cells(
    cells: &[CellPaint],
    cols: usize,
    rows: usize,
    cell_w: usize,
    cell_h: usize,
    ascent: i32,
    default_bg: [u8; 3],
) -> (img: Vec<u8>)
    requires
        cells@.len() == cols * rows,
        cols * cell_w <= PAINT_LIMIT,
        rows * cell_h <= PAINT_LIMIT,
        (cols * cell_w) * (rows * cell_h) * 4 <= usize::MAX,
        -(PAINT_LIMIT as int) <= ascent <= PAINT_LIMIT,
        forall|i: int| 0 <= i < cells@.len() ==> glyph_ok(#[trigger] cells@[i], cell_w as int, cell_h as int),
    ensures
        img@.len() == (cols * cell_w) * (rows * cell_h) * 4,
        forall|px: int, py: int, k: int|
            0 <= px < cols * cell_w && 0 <= py < rows * cell_h && 0 <= k < 4 ==> #[trigger] img@[idx(
                (cols * cell_w) as int,
                px,
                py,
                k,
            )] == paint_px(
                cells@,
                (cols * rows) as int,
                cols as int,
                cell_w as int,
                cell_h as int,
                ascent as int,
                default_bg@,
                px,
                py,
                k,
            ),
{
    let w: usize = cols * cell_w;
    let h: usize = rows * cell_h;
    let n: usize = w * h * 4;
    let mut img: Vec<u8> = Vec::new();
    while img.len() < n
        invariant
            img@.len() <= n,
            forall|i: int| 0 <= i < img@.len() ==> #[trigger] img@[i] == 0u8,
        decreases n - img@.len(),
    {
        img.push(0);
    }
    let ghost cs = cells@;
    let total = cells.len();
    proof {
        assert forall|px: int, py: int, k: int|
            0 <= px < w && 0 <= py < h && 0 <= k < 4 implies #[trigger] img@[idx(w as int, px, py, k)]
                == paint_px(cs, 0, cols as int, cell_w as int, cell_h as int, ascent as int, default_bg@, px, py, k) by {
            lemma_pixel_index(w as int, h as int, px, py, k);
        }
    }
    let mut row: usize = 0;
    while row < rows
        invariant
            0 <= row <= rows,
            cs == cells@,
            cs.len() == cols * rows,
            total == cs.len(),
            w == cols * cell_w,
            h == rows * cell_h,
            w <= PAINT_LIMIT,
            h <= PAINT_LIMIT,
            w * h * 4 <= usize::MAX,
            img@.len() == w * h * 4,
            -(PAINT_LIMIT as int) <= ascent <= PAINT_LIMIT,
            forall|i: int| 0 <= i < cs.len() ==> glyph_ok(#[trigger] cs[i], cell_w as int, cell_h as int),
            forall|px: int, py: int, k: int|
                0 <= px < w && 0 <= py < h && 0 <= k < 4 ==> #[trigger] img@[idx(w as int, px, py, k)]
                    == paint_px(
                    cs,
                    (row * cols) as int,
                    cols as int,
                    cell_w as int,
                    cell_h as int,
                    ascent as int,
                    default_bg@,
                    px,
                    py,
                    k,
                ),
        decreases rows - row,
    {
        let mut col: usize = 0;
        while col < cols
            invariant
                0 <= row < rows,
                0 <= col <= cols,
                cs == cells@,
                cs.len() == cols * rows,
                total == cs.len(),
                w == cols * cell_w,
                h == rows * cell_h,
                w <= PAINT_LIMIT,
                h <= PAINT_LIMIT,
                w * h * 4 <= usize::MAX,
                img@.len() == w * h * 4,
                -(PAINT_LIMIT as int) <= ascent <= PAINT_LIMIT,
                forall|i: int| 0 <= i < cs.len() ==> glyph_ok(#[trigger] cs[i], cell_w as int, cell_h as int),
                forall|px: int, py: int, k: int|
                    0 <= px < w && 0 <= py < h && 0 <= k < 4 ==> #[trigger] img@[idx(w as int, px, py, k)]
                        == paint_px(
                        cs,
                        row * cols + col,
                        cols as int,
                        cell_w as int,
                        cell_h as int,
                        ascent as int,
                        default_bg@,
                        px,
                        py,
                        k,
                    ),
            decreases cols - col,
        {
            proof {
                lemma_cell_origin(cols as int, cell_w as int, row as int, col as int, rows as int, cell_h as int);
            }
            let i: usize = row * cols + col;
            let x0: usize = col * cell_w;
            let y0: usize = row * cell_h;
            let cell = &cells[i];
            let bg = resolve(cell.bg, default_bg);
            let fg = resolve(cell.fg, DEFAULT_FG);
            let ghost before = img@;
            fill_rect(&mut img, w, h, x0, y0, cell_w, cell_h, bg);
            match &cell.glyph {
                Some(GlyphPaint::Solid(cov)) => {
                    proof {
                        lemma_mask_fits(w as int, h as int, x0 as int, y0 as int, cell_w as int, cell_h as int, cov@);
                    }
                    blit_glyph(&mut img, w, h, x0 as i32, y0 as i32, cell_w, cell_h, cov.as_slice(), fg);
                },
                Some(GlyphPaint::Font { width, height, ymin, cov }) => {
                    if *width > 0 && *height > 0 {
                        let d: i64 = cell_w as i64 - *width as i64;
                        let off: i64 = if d > 0 {
                            d / 2
                        } else {
                            0
                        };
                        let ox: i64 = x0 as i64 + off;
                        let top: i64 = y0 as i64 + ascent as i64 - (*height as i64 + *ymin as i64);
                        proof {
                            lemma_mask_fits(w as int, h as int, ox as int, top as int, *width as int, *height as int, cov@);
                        }
                        blit_glyph(&mut img, w, h, ox as i32, top as i32, *width, *height, cov.as_slice(), fg);
                    }
                },
                None => {},
            }
            proof {
                assert forall|px: int, py: int, k: int|
                    0 <= px < w && 0 <= py < h && 0 <= k < 4 implies #[trigger] img@[idx(
                        w as int,
                        px,
                        py,
                        k,
                    )] == paint_px(
                        cs,
                        row * cols + col + 1,
                        cols as int,
                        cell_w as int,
                        cell_h as int,
                        ascent as int,
                        default_bg@,
                        px,
                        py,
                        k,
                    ) by {
                    assert(before[idx(w as int, px, py, k)] == paint_px(
                        cs,
                        row * cols + col,
                        cols as int,
                        cell_w as int,
                        cell_h as int,
                        ascent as int,
                        default_bg@,
                        px,
                        py,
                        k,
                    ));
                }
            }
            col += 1;
        }
        assert(row * cols + cols == (row + 1) * cols) by (nonlinear_arith);
        row += 1;
    }
    assert(rows * cols == cols * rows) by (nonlinear_arith);
    img
}

/// The byte offset of channel `k` of pixel `(x, y)` of a `w`×`h` RGBA image
/// lies inside it, and is `4 * x + k` bytes into row `y`.
pub(crate) proof fn lemma_idx_range(w: int, h: int, x: int, y: int, k: int)
    requires
        0 <= x < w,
        0 <= y < h,
        0 <= k < 4,
    ensures
        0 <= idx(w, x, y, k) < w * h * 4,
        idx(w, x, y, k) == idx(w, 0, y, 0) + x * 4 + k,
        0 <= idx(w, 0, y, 0),
        idx(w, 0, y, 0) + w * 4 <= w * h * 4,
{
    lemma_pixel_index(w, h, x, y, k);
    lemma_row_base(w, h, y);
}

/// Row `y` of a `w`×`h` RGBA image starts at `idx(w, 0, y, 0)` and its
/// `4 * w` bytes lie inside the image.
pub(crate) proof fn lemma_row_base(w: int, h: int, y: int)
    requires
        0 <= w,
        0 <= y < h,
    ensures
        0 <= idx(w, 0, y, 0),
        idx(w, 0, y, 0) + w * 4 <= w * h * 4,
{
    assert(y * w + w <= w * h) by (nonlinear_arith)
        requires
            0 <= y < h,
            0 <= w,
    ;
    assert(0 <= y * w) by (nonlinear_arith)
        requires
            0 <= y,
            0 <= w,
    ;
}

/// Distinct pixels and channels have distinct byte offsets.
pub(crate) proof fn lemma_idx_unique(w: int, px: int, py: int, k: int, qx: int, qy: int, j: int)
    requires
        0 <= px < w,
        0 <= qx < w,
        0 <= py,
        0 <= qy,
        0 <= k < 4,
        0 <= j < 4,
        idx(w, px, py, k) == idx(w, qx, qy, j),
    ensures
        px == qx,
        py == qy,
        k == j,
{
    lemma_pixel_inj(w, px, py, k, qx, qy, j);
}
} // verus!
