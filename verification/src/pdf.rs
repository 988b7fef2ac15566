//! A PDF pane: the document rasterized once into a tall RGBA image, and the
//! viewport window cut from it at each scroll offset (the last one kept, since
//! consecutive frames mostly share an offset).

use vstd::prelude::*;
use crate::composite::idx;
use crate::model::{ScrollDirection, Velocity};

verus! {

/// The grey behind and between the pages (RGBA).
pub const BACKDROP: [u8; 4] = [0x52, 0x56, 0x59, 0xff];

/// A PDF scene: the `doc_w`×`doc_h` document image, the `width`×`height`
/// viewport, and how it scrolls; with the last viewport cut and its offset.
pub struct PdfScene {
    pub width: usize,
    pub height: usize,
    pub doc: Vec<u8>,
    pub doc_w: usize,
    pub doc_h: usize,
    pub max_off: usize,
    pub output_frames: usize,
    pub lead_in: usize,
    pub direction: ScrollDirection,
    pub velocity: Velocity,
    pub cached_frame: Vec<u8>,
    pub cached_offset: Option<usize>,
}

/// Where a scroll starts: the top of the document going down, the bottom
/// going up.
pub open spec fn scroll_start(max_off: int, direction: ScrollDirection) -> int {
    match direction {
        ScrollDirection::Down => 0,
        ScrollDirection::Up => max_off,
    }
}

/// The scroll offset of frame `frame_idx` of a pane on screen for
/// `output_frames` frames whose pan starts after `lead_in` frames, when the
/// page is at rest there: at its start when there is nothing to pan (no
/// offset, one frame, a pan of at most one frame) and during the lead-in; at
/// its end from the pan's last frame on. `None` while the page moves.
pub open spec fn rest_offset_spec(
    frame_idx: int,
    lead_in: int,
    output_frames: int,
    max_off: int,
    direction: ScrollDirection,
) -> Option<int> {
    let pan_frames = if output_frames > lead_in {
        output_frames - lead_in
    } else {
        0
    };
    if max_off == 0 || output_frames <= 1 || frame_idx < lead_in || pan_frames <= 1 {
        Some(scroll_start(max_off, direction))
    } else if frame_idx - lead_in >= pan_frames - 1 {
        Some(scroll_start(max_off, direction) + match direction {
            ScrollDirection::Down => max_off,
            ScrollDirection::Up => -max_off,
        })
    } else {
        None
    }
}

/// The scroll offset of a frame at which the page is at rest (see
/// `rest_offset_spec`); `None` while it moves, where the offset follows the
/// pan's speed curve.
pub fn rest_offset(
    frame_idx: usize,
    lead_in: usize,
    output_frames: usize,
    max_off: usize,
    direction: ScrollDirection,
) -> (r: Option<usize>)
    ensures
        match r {
            Some(o) => rest_offset_spec(
                frame_idx as int,
                lead_in as int,
                output_frames as int,
                max_off as int,
                direction,
            ) == Some(o as int),
            None => rest_offset_spec(
                frame_idx as int,
                lead_in as int,
                output_frames as int,
                max_off as int,
                direction,
            ).is_none(),
        },
{
    let start = match direction {
        ScrollDirection::Down => 0,
        ScrollDirection::Up => max_off,
    };
    if max_off == 0 || output_frames <= 1 || frame_idx < lead_in {
        return Some(start);
    }
    let pan_frames = output_frames.saturating_sub(lead_in);
    if pan_frames <= 1 {
        return Some(start);
    }
    if frame_idx - lead_in >= pan_frames - 1 {
        return Some(
            match direction {
                ScrollDirection::Down => max_off,
                ScrollDirection::Up => 0,
            },
        );
    }
    None
}

/// Channel `k` of viewport pixel `(x, y)` at scroll offset `off`: the document
/// pixel `off` rows further down, where the document has one, else the backdrop.
pub open spec fn viewport_px(s: PdfScene, off: int, x: int, y: int, k: int) -> u8 {
    if x < s.doc_w && off + y < s.doc_h {
        s.doc@[idx(s.doc_w as int, x, off + y, k)]
    } else {
        BACKDROP@[k]
    }
}

/// The viewport `v` is the window at offset `off`.
pub open spec fn is_window(s: PdfScene, v: Seq<u8>, off: int) -> bool {
    &&& v.len() == s.width * s.height * 4
    &&& forall|x: int, y: int, k: int|
        0 <= x < s.width && 0 <= y < s.height && 0 <= k < 4 ==> #[trigger] v[idx(
            s.width as int,
            x,
            y,
            k,
        )] == viewport_px(s, off, x, y, k)
}

impl PdfScene {
    /// The document fills whole rows no wider than the viewport, and the
    /// cached frame, if any, is the window at its offset.
    pub open spec fn wf(&self) -> bool {
        &&& self.doc@.len() >= self.doc_w * self.doc_h * 4
        &&& self.doc_w <= self.width
        &&& self.width * self.height * 4 <= usize::MAX
        &&& self.doc_w * self.doc_h * 4 <= usize::MAX
        &&& match self.cached_offset {
            Some(off) => is_window(*self, self.cached_frame@, off as int),
            None => true,
        }
    }

    /// The viewport width.
    pub fn width(&self) -> (r: usize)
        ensures
            r == self.width,
    {
        self.width
    }

    /// The viewport height.
    pub fn height(&self) -> (r: usize)
        ensures
            r == self.height,
    {
        self.height
    }

    /// Cuts the viewport window at scroll offset `off` (see `viewport_px`).
    pub fn slice_at(&self, off: usize) -> (out: Vec<u8>)
        requires
            self.wf(),
        ensures
            is_window(*self, out@, off as int),
    {
        let n = self.width * self.height;
        let mut out: Vec<u8> = Vec::new();
        let mut t: usize = 0;
        while t < n
            invariant
                n == self.width * self.height,
                self.width * self.height * 4 <= usize::MAX,
                0 <= t <= n,
                out@.len() == t * 4,
                forall|s: int, k: int| 0 <= s < t && 0 <= k < 4 ==> #[trigger] out@[s * 4 + k] == BACKDROP@[k],
            decreases n - t,
        {
            out.push(BACKDROP[0]);
            out.push(BACKDROP[1]);
            out.push(BACKDROP[2]);
            out.push(BACKDROP[3]);
            t += 1;
        }
        proof {
            assert forall|x: int, y: int, k: int|
                0 <= x < self.width && 0 <= y < self.height && 0 <= k < 4 implies #[trigger] out@[idx(
                    self.width as int,
                    x,
                    y,
                    k,
                )] == BACKDROP@[k] by {
                crate::cells::lemma_idx_range(self.width as int, self.height as int, x, y, k);
                let s = y * self.width + x;
                assert(out@[s * 4 + k] == BACKDROP@[k]);
            }
        }
        let avail: usize = if self.doc_h > off {
            self.doc_h - off
        } else {
            0
        };
        let rows: usize = if self.height < avail {
            self.height
        } else {
            avail
        };
        let ghost w = self.width as int;
        let ghost dw = self.doc_w as int;
        let mut row: usize = 0;
        while row < rows
            invariant
                self.wf(),
                w == self.width as int,
                dw == self.doc_w as int,
                rows <= self.height,
                rows > 0 ==> off + rows <= self.doc_h,
                0 <= row <= rows,
                out@.len() == self.width * self.height * 4,
                forall|x: int, y: int, k: int|
                    0 <= x < self.width && 0 <= y < self.height && 0 <= k < 4 ==> #[trigger] out@[idx(
                        w,
                        x,
                        y,
                        k,
                    )] == if y < row {
                        viewport_px(*self, off as int, x, y, k)
                    } else {
                        BACKDROP@[k]
                    },
            decreases rows - row,
        {
            proof {
                crate::cells::lemma_row_base(dw, self.doc_h as int, off + row);
                crate::cells::lemma_row_base(w, self.height as int, row as int);
            }
            let s0: usize = (off + row) * self.doc_w * 4;
            let d0: usize = row * self.width * 4;
            let mut b: usize = 0;
            let bytes: usize = self.doc_w * 4;
            while b < bytes
                invariant
                    self.wf(),
                    w == self.width as int,
                    dw == self.doc_w as int,
                    rows <= self.height,
                    off + rows <= self.doc_h,
                    0 <= row < rows,
                    bytes == self.doc_w * 4,
                    s0 == idx(dw, 0, off + row, 0),
                    d0 == idx(w, 0, row as int, 0),
                    0 <= b <= bytes,
                    out@.len() == self.width * self.height * 4,
                    forall|x: int, y: int, k: int|
                        0 <= x < self.width && 0 <= y < self.height && 0 <= k < 4 ==> #[trigger] out@[idx(
                            w,
                            x,
                            y,
                            k,
                        )] == if y < row || (y == row && x * 4 + k < b) {
                            viewport_px(*self, off as int, x, y, k)
                        } else {
                            BACKDROP@[k]
                        },
                decreases bytes - b,
            {
                let ghost x = (b / 4) as int;
                let ghost k = (b % 4) as int;
                proof {
                    assert(x < dw);
                    assert(x < w);
                    crate::cells::lemma_idx_range(dw, self.doc_h as int, x, off + row, k);
                    crate::cells::lemma_idx_range(w, self.height as int, x, row as int, k);
                    assert(s0 + b == idx(dw, x, off + row, k));
                    assert(d0 + b == idx(w, x, row as int, k));
                }
                let v = self.doc[s0 + b];
                let ghost before = out@;
                out.set(d0 + b, v);
                proof {
                    assert forall|qx: int, qy: int, j: int|
                        0 <= qx < self.width && 0 <= qy < self.height && 0 <= j < 4 implies #[trigger] out@[idx(
                            w,
                            qx,
                            qy,
                            j,
                        )] == if qy < row || (qy == row && qx * 4 + j < b + 1) {
                            viewport_px(*self, off as int, qx, qy, j)
                        } else {
                            BACKDROP@[j]
                        } by {
                        crate::cells::lemma_idx_range(w, self.height as int, qx, qy, j);
                        if idx(w, qx, qy, j) == d0 + b {
                            crate::cells::lemma_idx_unique(w, qx, qy, j, x, row as int, k);
                        } else if qy == row && qx * 4 + j == b {
                            assert(idx(w, qx, qy, j) == d0 + b);
                        }
                    }
                }
                b += 1;
            }
            row += 1;
        }
        proof {
            assert forall|x: int, y: int, k: int|
                0 <= x < self.width && 0 <= y < self.height && 0 <= k < 4 implies #[trigger] out@[idx(
                    w,
                    x,
                    y,
                    k,
                )] == viewport_px(*self, off as int, x, y, k) by {
                crate::cells::lemma_idx_range(w, self.height as int, x, y, k);
                if y < rows {
                    if x >= self.doc_w {
                        assert(viewport_px(*self, off as int, x, y, k) == BACKDROP@[k]);
                    }
                } else {
                    assert(!(off + y < self.doc_h));
                }
            }
        }
        out
    }

    /// Makes the cached frame the window at offset `off`, cutting it only when
    /// the offset changed.
    pub fn ensure_frame(&mut self, off: usize)
        requires
            old(self).wf(),
        ensures
            final(self).wf(),
            final(self).cached_offset == Some(off),
            final(self).width == old(self).width,
            final(self).height == old(self).height,
            final(self).doc == old(self).doc,
            final(self).doc_w == old(self).doc_w,
            final(self).doc_h == old(self).doc_h,
            final(self).max_off == old(self).max_off,
            final(self).output_frames == old(self).output_frames,
            final(self).lead_in == old(self).lead_in,
            final(self).direction == old(self).direction,
            final(self).velocity == old(self).velocity,
    {
        if self.cached_offset == Some(off) {
            return;
        }
        let frame = self.slice_at(off);
        self.cached_frame = frame;
        self.cached_offset = Some(off);
    }
}

} // verus!
