//! Frame differencing for the GIF encoder: the bounding box of what changed
//! between two canvases, cropping a canvas to a box, and the clock that gives
//! each written frame its delay.

use vstd::prelude::*;

verus! {

/// Whether byte `b` of row `y` differs between two canvases whose rows are
/// `rl` bytes long (only whole rows present in both count).
pub open spec fn byte_differs(prev: Seq<u8>, cur: Seq<u8>, rl: int, y: int, b: int) -> bool {
    &&& 0 <= b < rl
    &&& 0 <= y
    &&& (y + 1) * rl <= prev.len()
    &&& (y + 1) * rl <= cur.len()
    &&& prev[y * rl + b] != cur[y * rl + b]
}

/// `(x0, y0, x1, y1)` is the tightest box (exclusive ends) around the pixels
/// (four bytes each) that differ between two `w`-wide RGBA canvases.
pub open spec fn is_diff_box(prev: Seq<u8>, cur: Seq<u8>, w: int, bx: (usize, usize, usize, usize)) -> bool {
    let (x0, y0, x1, y1) = bx;
    let rl = w * 4;
    &&& forall|y: int, b: int|
        #[trigger] byte_differs(prev, cur, rl, y, b) ==> x0 <= b / 4 < x1 && y0 <= y < y1
    &&& exists|y: int, b: int| #[trigger] byte_differs(prev, cur, rl, y, b) && b / 4 == x0
    &&& exists|y: int, b: int| #[trigger] byte_differs(prev, cur, rl, y, b) && b / 4 == x1 - 1
    &&& exists|y: int, b: int| #[trigger] byte_differs(prev, cur, rl, y, b) && y == y0
    &&& exists|y: int, b: int| #[trigger] byte_differs(prev, cur, rl, y, b) && y == y1 - 1
}

/// Bounding rectangle `(x0, y0, x1, y1)` (exclusive ends) of the pixels that
/// differ between two RGBA canvases `w` pixels wide, or `None` when they are
/// identical. Only whole rows present in both canvases are compared.
pub fn diff_rect(prev: &[u8], cur: &[u8], w: usize) -> (r: Option<(usize, usize, usize, usize)>)
    requires
        w > 0,
        w * 4 <= usize::MAX,
    ensures
        match r {
            Some(bx) => is_diff_box(prev@, cur@, w as int, bx),
            None => forall|y: int, b: int| !#[trigger] byte_differs(prev@, cur@, w * 4, y, b),
        },
{
    let rl: usize = w * 4;
    let shorter: usize = if prev.len() < cur.len() {
        prev.len()
    } else {
        cur.len()
    };
    let rows: usize = shorter / rl;
    let ghost rli = rl as int;
    let mut x0: usize = usize::MAX;
    let mut y0: usize = usize::MAX;
    let mut x1: usize = 0;
    let mut y1: usize = 0;
    let mut y: usize = 0;
    let mut base: usize = 0;
    let ghost mut wx0: (int, int) = (0, 0);
    let ghost mut wx1: (int, int) = (0, 0);
    let ghost mut wy0: (int, int) = (0, 0);
    let ghost mut wy1: (int, int) = (0, 0);
    assert(rows * rl <= shorter) by (nonlinear_arith)
        requires
            rows == shorter / rl,
            rl > 0,
    ;
    while y < rows
        invariant
            rl == w * 4,
            rli == rl,
            rl > 0,
            rows == shorter / rl,
            rows * rl <= shorter,
            shorter <= prev@.len(),
            shorter <= cur@.len(),
            shorter == prev@.len() || shorter == cur@.len(),
            0 <= y <= rows,
            base == y * rl,
            y1 == 0 ==> forall|yy: int, b: int| yy < y ==> !#[trigger] byte_differs(prev@, cur@, rli, yy, b),
            y1 > 0 ==> {
                &&& forall|yy: int, b: int|
                    yy < y && #[trigger] byte_differs(prev@, cur@, rli, yy, b) ==> x0 <= b / 4 < x1 && y0 <= yy
                        < y1
                &&& byte_differs(prev@, cur@, rli, wx0.0, wx0.1) && wx0.1 / 4 == x0
                &&& byte_differs(prev@, cur@, rli, wx1.0, wx1.1) && wx1.1 / 4 == x1 - 1
                &&& byte_differs(prev@, cur@, rli, wy0.0, wy0.1) && wy0.0 == y0
                &&& byte_differs(prev@, cur@, rli, wy1.0, wy1.1) && wy1.0 == y1 - 1
                &&& y1 <= y
                &&& y0 < y1
            },
        decreases rows - y,
    {
        assert((y + 1) * rl <= rows * rl) by (nonlinear_arith)
            requires
                y < rows,
                rl > 0,
        ;
        assert((y + 1) * rl == y * rl + rl) by (nonlinear_arith);
        let mut b: usize = 0;
        while b < rl
            invariant
                rl == w * 4,
                rli == rl,
                rl > 0,
                0 <= y < rows,
                base == y * rl,
                (y + 1) * rl <= shorter,
                (y + 1) * rl == y * rl + rl,
                shorter <= prev@.len(),
                shorter <= cur@.len(),
                0 <= b <= rl,
                y1 == 0 ==> forall|yy: int, bb: int|
                    (yy < y || (yy == y && bb < b)) ==> !#[trigger] byte_differs(prev@, cur@, rli, yy, bb),
                y1 > 0 ==> forall|yy: int, bb: int|
                    (yy < y || (yy == y && bb < b)) && #[trigger] byte_differs(prev@, cur@, rli, yy, bb)
                        ==> x0 <= bb / 4 < x1 && y0 <= yy < y1,
                y1 > 0 ==> byte_differs(prev@, cur@, rli, wx0.0, wx0.1) && wx0.1 / 4 == x0,
                y1 > 0 ==> byte_differs(prev@, cur@, rli, wx1.0, wx1.1) && wx1.1 / 4 == x1 - 1,
                y1 > 0 ==> byte_differs(prev@, cur@, rli, wy0.0, wy0.1) && wy0.0 == y0,
                y1 > 0 ==> byte_differs(prev@, cur@, rli, wy1.0, wy1.1) && wy1.0 == y1 - 1,
                y1 > 0 ==> y1 <= y + 1,
                y1 > 0 ==> y0 < y1,
                y1 > 0 ==> (y1 == y + 1 || y1 <= y),
            decreases rl - b,
        {
            if prev[base + b] != cur[base + b] {
                assert(byte_differs(prev@, cur@, rli, y as int, b as int));
                let px: usize = b / 4;
                if y1 == 0 {
                    x0 = px;
                    x1 = px + 1;
                    y0 = y;
                    proof {
                        wx0 = (y as int, b as int);
                        wx1 = (y as int, b as int);
                        wy0 = (y as int, b as int);
                    }
                } else {
                    if px < x0 {
                        x0 = px;
                        proof {
                            wx0 = (y as int, b as int);
                        }
                    }
                    if px + 1 > x1 {
                        x1 = px + 1;
                        proof {
                            wx1 = (y as int, b as int);
                        }
                    }
                }
                y1 = y + 1;
                proof {
                    wy1 = (y as int, b as int);
                }
            } else {
                assert(!byte_differs(prev@, cur@, rli, y as int, b as int));
            }
            b += 1;
        }
        y += 1;
        base = base + rl;
    }
    proof {
        assert forall|yy: int, bb: int| yy >= rows implies !#[trigger] byte_differs(prev@, cur@, rli, yy, bb) by {
            if 0 <= yy && (yy + 1) * rli <= prev@.len() && (yy + 1) * rli <= cur@.len() {
                assert((yy + 1) * rli <= shorter);
                assert((rows + 1) * rli <= (yy + 1) * rli) by (nonlinear_arith)
                    requires
                        yy >= rows,
                        rli > 0,
                ;
                assert(shorter < (rows + 1) * rli) by (nonlinear_arith)
                    requires
                        rows == shorter as int / rli,
                        rli > 0,
                ;
            }
        }
    }
    if y1 > 0 {
        proof {
            assert(exists|yy: int, bb: int| #[trigger] byte_differs(prev@, cur@, rli, yy, bb) && bb / 4 == x0);
            assert(exists|yy: int, bb: int| #[trigger] byte_differs(prev@, cur@, rli, yy, bb) && bb / 4 == x1 - 1);
            assert(exists|yy: int, bb: int| #[trigger] byte_differs(prev@, cur@, rli, yy, bb) && yy == y0);
            assert(exists|yy: int, bb: int| #[trigger] byte_differs(prev@, cur@, rli, yy, bb) && yy == y1 - 1);
        }
        Some((x0, y0, x1, y1))
    } else {
        None
    }
}

/// The `(x0, y0)..(x1, y1)` sub-rectangle of a `w`-wide RGBA canvas, row by
/// row.
pub open spec fn crop_spec(rgba: Seq<u8>, w: int, x0: int, y0: int, x1: int, y1: int) -> Seq<u8>
    decreases y1 - y0,
{
    if y1 <= y0 {
        seq![]
    } else {
        crop_spec(rgba, w, x0, y0, x1, y1 - 1) + rgba.subrange((y1 - 1) * w * 4 + x0 * 4, (y1 - 1) * w * 4 + x1 * 4)
    }
}

/// Copy the `(x0, y0)..(x1, y1)` sub-rectangle of a `w`-wide RGBA canvas.
pub fn crop_rgba(rgba: &[u8], w: usize, x0: usize, y0: usize, x1: usize, y1: usize) -> (out: Vec<u8>)
    requires
        x0 <= x1 <= w,
        y0 <= y1,
        y1 * w * 4 <= rgba@.len(),
    ensures
        out@ == crop_spec(rgba@, w as int, x0 as int, y0 as int, x1 as int, y1 as int),
{
    let len: usize = rgba.len();
    let mut out: Vec<u8> = Vec::new();
    let mut y: usize = y0;
    while y < y1
        invariant
            len == rgba@.len(),
            x0 <= x1 <= w,
            y0 <= y <= y1,
            y1 * w * 4 <= rgba@.len(),
            out@ == crop_spec(rgba@, w as int, x0 as int, y0 as int, x1 as int, y as int),
        decreases y1 - y,
    {
        assert((y + 1) * w * 4 <= y1 * w * 4) by (nonlinear_arith)
            requires
                y < y1,
        ;
        assert((y + 1) * w * 4 == y * w * 4 + w * 4) by (nonlinear_arith);
        assert(x1 * 4 <= w * 4);
        let row: usize = y * w * 4;
        let mut k: usize = row + x0 * 4;
        let ghost start = out@;
        while k < row + x1 * 4
            invariant
                len == rgba@.len(),
                x1 <= w,
                row == y * w * 4,
                row + x1 * 4 <= rgba@.len(),
                row + x0 * 4 <= k <= row + x1 * 4,
                out@ == start + rgba@.subrange(row + x0 * 4, k as int),
            decreases row + x1 * 4 - k,
        {
            out.push(rgba[k]);
            assert(rgba@.subrange(row + x0 * 4, k + 1) =~= rgba@.subrange(row + x0 * 4, k as int).push(
                rgba@[k as int],
            ));
            k += 1;
        }
        y += 1;
    }
    out
}

// ---------------------------------------------------------------------------
// Frame delays
// ---------------------------------------------------------------------------

/// `n / d` rounded to the nearest integer, halves away from zero.
pub open spec fn round_div(n: int, d: int) -> int {
    if n >= 0 {
        (2 * n + d) / (2 * d)
    } else {
        -((-2 * n + d) / (2 * d))
    }
}

/// A GIF delay in centiseconds: browsers clamp anything under 2, and the
/// field holds 16 bits.
pub open spec fn clamp_delay(r: int) -> int {
    if r < 2 {
        2
    } else if r > 0xffff {
        0xffff
    } else {
        r
    }
}

/// Rounding leaves at most half a unit: `|n - d·round(n/d)| ≤ d/2`.
proof fn lemma_round_div(n: int, d: int)
    requires
        d > 0,
    ensures
        -d <= 2 * (n - d * round_div(n, d)) <= d,
{
    if n >= 0 {
        let x = 2 * n + d;
        let q = x / (2 * d);
        vstd::arithmetic::div_mod::lemma_fundamental_div_mod(x, 2 * d);
        assert(-d <= 2 * (n - d * q) <= d) by (nonlinear_arith)
            requires
                x == 2 * d * q + x % (2 * d),
                0 <= x % (2 * d) < 2 * d,
                x == 2 * n + d,
        ;
        assert(round_div(n, d) == q);
    } else {
        let x = -2 * n + d;
        let q = x / (2 * d);
        vstd::arithmetic::div_mod::lemma_fundamental_div_mod(x, 2 * d);
        assert(-d <= 2 * (n + d * q) <= d) by (nonlinear_arith)
            requires
                x == 2 * d * q + x % (2 * d),
                0 <= x % (2 * d) < 2 * d,
                x == -2 * n + d,
        ;
        assert(d * round_div(n, d) == -(d * q)) by (nonlinear_arith)
            requires
                round_div(n, d) == -q,
        ;
    }
}

/// Hands out GIF frame delays so that, summed, they follow the frame rate: a
/// frame's delay is the time its source frames ideally end at, less what was
/// already written, rounded (so 15 frames at 15 fps take exactly 100 cs, not
/// 15 × 7 = 105).
pub struct DelayClock {
    fps: u32,
    frames: u64,
    written_cs: u64,
}

impl View for DelayClock {
    /// `(fps, source frames so far, centiseconds written so far)`.
    type V = (nat, nat, nat);

    closed spec fn view(&self) -> (nat, nat, nat) {
        (self.fps as nat, self.frames as nat, self.written_cs as nat)
    }
}

impl DelayClock {
    #[verifier::type_invariant]
    spec fn inv(self) -> bool {
        self.fps >= 1
    }

    /// A clock at `fps` frames per second (0 counts as 1), at its start.
    pub fn new(fps: u32) -> (r: DelayClock)
        ensures
            r@ == ((if fps == 0 {
                1
            } else {
                fps
            }) as nat, 0nat, 0nat),
    {
        DelayClock { fps: if fps == 0 {
            1
        } else {
            fps
        }, frames: 0, written_cs: 0 }
    }

    /// The delay, in centiseconds, of a GIF frame that spans `frames` source
    /// frames. Unless the delay had to be clamped, what has been written
    /// afterwards is the ideal elapsed time to within half a centisecond.
    pub fn delay(&mut self, frames: u64) -> (d: u16)
        requires
            old(self)@.1 + frames <= u64::MAX,
            old(self)@.2 + 0xffff <= u64::MAX,
        ensures
            ({
                let (fps, f0, w0) = old(self)@;
                let f1 = (f0 + frames) as nat;
                let r = round_div(f1 * 100 - w0 * fps, fps as int);
                &&& fps >= 1
                &&& d == clamp_delay(r)
                &&& final(self)@ == (fps, f1, (w0 + d) as nat)
                &&& (2 <= r <= 0xffff ==> -(fps as int) <= 2 * ((w0 + d) * fps - f1 * 100) <= fps)
            }),
    {
        proof {
            use_type_invariant(&*self);
        }
        let f1: u64 = self.frames + frames;
        let fps: i128 = self.fps as i128;
        let w0: u64 = self.written_cs;
        assert((w0 as int) * (fps as int) <= (u64::MAX as int) * (u32::MAX as int)) by (nonlinear_arith)
            requires
                0 <= w0 <= u64::MAX,
                1 <= fps <= u32::MAX,
        ;
        let n: i128 = (f1 as i128) * 100 - (w0 as i128) * fps;
        assert(-(u64::MAX as int) * (u32::MAX as int) <= n <= (u64::MAX as int) * 100);
        let r: i128 = if n >= 0 {
            (n + n + fps) / (fps + fps)
        } else {
            let m: i128 = 0 - n;
            0 - (m + m + fps) / (fps + fps)
        };
        assert(r == round_div(n as int, fps as int)) by {
            if n >= 0 {
                assert(n + n + fps == 2 * n + fps);
                assert(fps + fps == 2 * fps);
            } else {
                assert(-n + -n + fps == -2 * n + fps);
                assert(fps + fps == 2 * fps);
            }
        }
        proof {
            lemma_round_div(n as int, fps as int);
        }
        let d: u16 = if r < 2 {
            2
        } else if r > 0xffff {
            0xffff
        } else {
            r as u16
        };
        proof {
            if 2 <= r <= 0xffff {
                assert(-(fps as int) <= 2 * ((w0 + d) * fps - f1 * 100) <= fps) by (nonlinear_arith)
                    requires
                        n == f1 * 100 - w0 * fps,
                        -fps <= 2 * (n - fps * r) <= fps,
                        d == r,
                ;
            }
        }
        self.frames = f1;
        self.written_cs = w0 + d as u64;
        assert(self@ == (fps as nat, f1 as nat, (w0 + d) as nat));
        d
    }
}

} // verus!
