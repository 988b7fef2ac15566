//! Building a playback layout for a capture: the terminal canvas, the pane
//! rectangles of a reveal, the default single-terminal score, and where the
//! trailing `demo stop` of a capture begins.

use vstd::prelude::*;
use crate::model::{
    DemoMeta, Layout, Orientation, Pane, PaneKind, RawEvent, RawMacro, Score, Step,
};
use crate::text::{chars_of, is_cntrl, is_control_char, seq_eq, slice_of, trim, trim_bounds};

verus! {

broadcast use vstd::string::group_string_axioms;

/// Assumed monospace cell width (px), matching the recorder's geometry.
pub const CELL_W: u32 = 10;

/// Assumed monospace cell height (px).
pub const CELL_H: u32 = 20;

/// Minimum padding around a pane so it doesn't touch the canvas edges.
pub const MIN_PAD: u32 = 32;

/// `a - b`, or 0 when `b` is larger.
pub open spec fn sat_sub(a: int, b: int) -> int {
    if a >= b {
        a - b
    } else {
        0
    }
}

/// The pane rectangles `(x, y, w, h)` of a reveal of `count` panes on a
/// `tw`×`th` canvas, inside a `MIN_PAD` margin: one pane fills the inner area;
/// two split it in halves, side by side (horizontal) or stacked (vertical).
pub open spec fn pane_rects_spec(tw: int, th: int, count: int, o: Orientation) -> Seq<
    (u32, u32, u32, u32),
> {
    let pad = MIN_PAD as int;
    let iw = sat_sub(tw, 2 * pad);
    let ih = sat_sub(th, 2 * pad);
    if count <= 1 {
        seq![(pad as u32, pad as u32, iw as u32, ih as u32)]
    } else {
        match o {
            Orientation::Horizontal => seq![
                (pad as u32, pad as u32, (iw / 2) as u32, ih as u32),
                ((pad + iw / 2) as u32, pad as u32, (iw - iw / 2) as u32, ih as u32),
            ],
            Orientation::Vertical => seq![
                (pad as u32, pad as u32, iw as u32, (ih / 2) as u32),
                (pad as u32, (pad + ih / 2) as u32, iw as u32, (ih - ih / 2) as u32),
            ],
        }
    }
}

/// Pane rectangles for a reveal: 1 pane fills the canvas; 2 split it by
/// `orientation` (horizontal → left/right, vertical → top/bottom), all inside
/// a minimum padding.
pub fn pane_rects(tw: u32, th: u32, count: usize, orientation: Orientation) -> (r: Vec<(u32, u32, u32, u32)>)
    ensures
        r@ == pane_rects_spec(tw as int, th as int, count as int, orientation),
{
    let pad: u32 = MIN_PAD;
    let inner_w: u32 = tw.saturating_sub(2 * pad);
    let inner_h: u32 = th.saturating_sub(2 * pad);
    let r = if count <= 1 {
        vec![(pad, pad, inner_w, inner_h)]
    } else {
        match orientation {
            Orientation::Horizontal => {
                let half = inner_w / 2;
                let rest = inner_w - half;
                vec![(pad, pad, half, inner_h), (pad + half, pad, rest, inner_h)]
            },
            Orientation::Vertical => {
                let half = inner_h / 2;
                let rest = inner_h - half;
                vec![(pad, pad, inner_w, half), (pad, pad + half, inner_w, rest)]
            },
        }
    };
    assert(r@ =~= pane_rects_spec(tw as int, th as int, count as int, orientation));
    r
}

/// The rectangles of a reveal tile the canvas inside its `MIN_PAD` margin:
/// one pane fills that inner area; two panes split it in halves along the
/// orientation, the second starting where the first ends, their sizes along
/// the split summing to the inner size (the second taking the odd pixel), and
/// each spanning the whole inner size across it. On a canvas of at least
/// twice the margin each way, every rectangle lies within
/// `[MIN_PAD, tw - MIN_PAD] × [MIN_PAD, th - MIN_PAD]`; on a smaller one the
/// inner area is empty.
pub proof fn lemma_pane_rects_tile(tw: u32, th: u32, count: usize, o: Orientation)
    ensures
        ({
            let r = pane_rects_spec(tw as int, th as int, count as int, o);
            let pad = MIN_PAD as int;
            let iw = if tw >= 2 * pad { tw - 2 * pad } else { 0 };
            let ih = if th >= 2 * pad { th - 2 * pad } else { 0 };
            &&& r.len() == (if count <= 1 { 1int } else { 2int })
            &&& forall|i: int|
                0 <= i < r.len() ==> pad <= (#[trigger] r[i]).0 && r[i].0 + r[i].2 <= pad + iw && pad
                    <= r[i].1 && r[i].1 + r[i].3 <= pad + ih
            &&& (tw >= 2 * pad && th >= 2 * pad) ==> forall|i: int|
                0 <= i < r.len() ==> (#[trigger] r[i]).0 + r[i].2 <= tw - pad && r[i].1 + r[i].3 <= th
                    - pad
            &&& count <= 1 ==> r[0] == (MIN_PAD, MIN_PAD, iw as u32, ih as u32)
            &&& (count > 1 && o == Orientation::Horizontal) ==> {
                &&& r[0].0 == pad && r[0].1 == pad && r[1].1 == pad
                &&& r[0].3 == ih && r[1].3 == ih
                &&& r[1].0 == r[0].0 + r[0].2
                &&& r[0].2 + r[1].2 == iw
                &&& r[0].2 <= r[1].2 <= r[0].2 + 1
            }
            &&& (count > 1 && o == Orientation::Vertical) ==> {
                &&& r[0].0 == pad && r[0].1 == pad && r[1].0 == pad
                &&& r[0].2 == iw && r[1].2 == iw
                &&& r[1].1 == r[0].1 + r[0].3
                &&& r[0].3 + r[1].3 == ih
                &&& r[0].3 <= r[1].3 <= r[0].3 + 1
            }
        }),
{
}

/// The terminal pane `main` at `(x, y)`, `width`×`height` px.
pub fn terminal_pane(x: u32, y: u32, width: u32, height: u32) -> (p: Pane)
    ensures
        p.id@ == "main"@,
        p.kind == PaneKind::Terminal,
        p.x == x && p.y == y && p.width == width && p.height == height,
        p.font_family.is_some() && p.font_family.unwrap()@ == "monospace"@,
        p.font_size == Some(16u32),
        p.url.is_none(),
        p.theme.is_none(),
        !p.ignore_speed,
{
    Pane {
        id: "main".to_string(),
        kind: PaneKind::Terminal,
        x,
        y,
        width,
        height,
        font_family: Some("monospace".to_string()),
        font_size: Some(16),
        url: None,
        theme: None,
        ignore_speed: false,
    }
}

/// A browser pane `id` showing `url`.
pub fn browser_pane(id: &str, url: &str, x: u32, y: u32, width: u32, height: u32, theme: Option<String>) -> (p: Pane)
    ensures
        p.id@ == id@,
        p.kind == PaneKind::Browser,
        p.x == x && p.y == y && p.width == width && p.height == height,
        p.font_family.is_none(),
        p.font_size.is_none(),
        p.url.is_some() && p.url.unwrap()@ == url@,
        p.theme == theme,
        !p.ignore_speed,
{
    Pane {
        id: id.to_string(),
        kind: PaneKind::Browser,
        x,
        y,
        width,
        height,
        font_family: None,
        font_size: None,
        url: Some(url.to_string()),
        theme,
        ignore_speed: false,
    }
}

/// The pixel size of a `cols`×`rows` terminal (at least one cell each way).
pub open spec fn terminal_px(cols: int, rows: int) -> (int, int) {
    (
        if cols * CELL_W > CELL_W {
            cols * CELL_W
        } else {
            CELL_W as int
        },
        if rows * CELL_H > CELL_H {
            rows * CELL_H
        } else {
            CELL_H as int
        },
    )
}

/// The canvas of a capture: the chosen resolution, grown to hold the terminal,
/// or the terminal's own size.
pub open spec fn canvas_px(cols: int, rows: int, resolution: Option<(u32, u32)>) -> (int, int) {
    let (tw, th) = terminal_px(cols, rows);
    match resolution {
        Some((w, h)) => (
            if w > tw {
                w as int
            } else {
                tw
            },
            if h > th {
                h as int
            } else {
                th
            },
        ),
        None => (tw, th),
    }
}

/// Offset that centers a `inner` long span in an `outer` long one, keeping at
/// least the minimum padding.
pub open spec fn centered(outer: int, inner: int) -> int {
    MIN_PAD + sat_sub(sat_sub(outer, inner), 2 * MIN_PAD) / 2
}

/// The base layout of a capture of a `cols`×`rows` terminal: a canvas of the
/// chosen `resolution` (never smaller than the terminal) holding the terminal
/// pane, centered, at `fps` frames per second (15 by default).
pub open spec fn base_layout_ok(l: Layout, cols: int, rows: int, resolution: Option<(u32, u32)>, fps: Option<u32>) -> bool {
    let (tw, th) = terminal_px(cols, rows);
    let (cw, ch) = canvas_px(cols, rows, resolution);
    &&& l.width == cw && l.height == ch
    &&& l.fps == (match fps {
        Some(f) => f,
        None => 15,
    })
    &&& l.background.is_some() && l.background.unwrap()@ == "#0b0f14"@
    &&& l.font_family.is_none() && l.font_size.is_none()
    &&& l.panes@.len() == 1
    &&& l.panes@[0].id@ == "main"@
    &&& l.panes@[0].kind == PaneKind::Terminal
    &&& l.panes@[0].x == centered(cw, tw)
    &&& l.panes@[0].y == centered(ch, th)
    &&& l.panes@[0].width == tw && l.panes@[0].height == th
}

/// The layout of a capture before any reveal: the canvas and the terminal
/// pane, centered when the canvas is larger than the terminal.
pub fn base_layout(cols: u16, rows: u16, resolution: Option<(u32, u32)>, fps: Option<u32>) -> (l: Layout)
    ensures
        base_layout_ok(l, cols as int, rows as int, resolution, fps),
{
    let tw0: u32 = cols as u32 * CELL_W;
    let th0: u32 = rows as u32 * CELL_H;
    let tw: u32 = if tw0 > CELL_W {
        tw0
    } else {
        CELL_W
    };
    let th: u32 = if th0 > CELL_H {
        th0
    } else {
        CELL_H
    };
    let (cw, ch): (u32, u32) = match resolution {
        Some((w, h)) => (
            if w > tw {
                w
            } else {
                tw
            },
            if h > th {
                h
            } else {
                th
            },
        ),
        None => (tw, th),
    };
    let tx: u32 = MIN_PAD.saturating_add(cw.saturating_sub(tw).saturating_sub(2 * MIN_PAD) / 2);
    let ty: u32 = MIN_PAD.saturating_add(ch.saturating_sub(th).saturating_sub(2 * MIN_PAD) / 2);
    let panes = vec![terminal_pane(tx, ty, tw, th)];
    Layout {
        width: cw,
        height: ch,
        fps: match fps {
            Some(f) => f,
            None => 15,
        },
        background: Some("#0b0f14".to_string()),
        font_family: None,
        font_size: None,
        panes,
    }
}

/// The plain single-terminal score named `name` for a `cols`×`rows` capture:
/// written to `./dist`, no prompt, speed or targets, no sources, no timeline,
/// and the base layout of that grid.
pub open spec fn default_score_spec(s: Score, name: Seq<char>, cols: int, rows: int) -> bool {
    &&& s.demo.name@ == name
    &&& s.demo.output_dir@ == "./dist"@
    &&& s.demo.prompt.is_none() && s.demo.speed.is_none() && s.demo.targets.is_none()
    &&& s.sources@.len() == 0
    &&& s.timeline@.len() == 0
    &&& base_layout_ok(s.layout, cols, rows, None, None)
}

/// A plain single-terminal score sized to a `cols`×`rows` capture, used to
/// render a recording that carries no layout of its own.
pub fn default_score(name: &str, cols: u16, rows: u16) -> (s: Score)
    ensures
        default_score_spec(s, name@, cols as int, rows as int),
{
    let layout = base_layout(cols, rows, None, None);
    Score {
        demo: DemoMeta {
            name: name.to_string(),
            output_dir: "./dist".to_string(),
            prompt: None,
            speed: None,
            targets: None,
        },
        sources: Vec::new(),
        layout,
        timeline: Vec::new(),
    }
}

/// A playback score around a layout: named `name`, written to `./dist`, no
/// sources, and the given timeline (which playback never executes; it only
/// carries the browser scenes' scroll steps).
pub fn score_with_layout(name: &str, layout: Layout, timeline: Vec<Step>) -> (s: Score)
    ensures
        s.demo.name@ == name@,
        s.demo.output_dir@ == "./dist"@,
        s.demo.prompt.is_none() && s.demo.speed.is_none() && s.demo.targets.is_none(),
        s.sources@.len() == 0,
        s.layout == layout,
        s.timeline == timeline,
{
    Score {
        demo: DemoMeta {
            name: name.to_string(),
            output_dir: "./dist".to_string(),
            prompt: None,
            speed: None,
            targets: None,
        },
        sources: Vec::new(),
        layout,
        timeline,
    }
}

/// One side of a cast's terminal grid from its header: a positive value, cut
/// to 16 bits as the header's integer is; absent or zero (a capture from a
/// size-less terminal), the fallback.
pub open spec fn cast_side(v: Option<u64>, fallback: u16) -> u16 {
    match v {
        Some(c) => if c > 0 {
            (c % 0x10000) as u16
        } else {
            fallback
        },
        None => fallback,
    }
}

/// The terminal grid `(cols, rows)` of a cast whose header gives `width` and
/// `height`: 80×24 where a side is missing or zero.
pub fn cast_grid(width: Option<u64>, height: Option<u64>) -> (r: (u16, u16))
    ensures
        r == (cast_side(width, 80), cast_side(height, 24)),
{
    let cols: u16 = match width {
        Some(c) => if c > 0 {
            (c % 0x10000) as u16
        } else {
            80
        },
        None => 80,
    };
    let rows: u16 = match height {
        Some(c) => if c > 0 {
            (c % 0x10000) as u16
        } else {
            24
        },
        None => 24,
    };
    (cols, rows)
}

// ---------------------------------------------------------------------------
// The trailing `demo stop`
// ---------------------------------------------------------------------------

/// What is known while reading typed input: the current line, the time its
/// first visible character was typed, and the cutoff found so far.
pub type StopScan = (Seq<char>, Option<u64>, Option<u64>);

/// Whether `line` is the stop command (ignoring surrounding whitespace).
pub open spec fn is_stop_line(line: Seq<char>) -> bool {
    trim(line) == crate::STOP_COMMAND@
}

/// Reading one typed character `c` at time `t`: a line end closes the line
/// (recording where it started if it was the stop command), other control
/// characters are ignored, and a visible character extends the line.
pub open spec fn stop_step(st: StopScan, t: u64, c: char) -> StopScan {
    let (line, start, cutoff) = st;
    if c == '\r' || c == '\n' {
        (
            Seq::<char>::empty(),
            None,
            if is_stop_line(line) {
                start
            } else {
                cutoff
            },
        )
    } else if is_cntrl(c) {
        st
    } else {
        (line.push(c), if start.is_none() {
            Some(t)
        } else {
            start
        }, cutoff)
    }
}

pub open spec fn stop_scan_chars(st: StopScan, t: u64, cs: Seq<char>) -> StopScan
    decreases cs.len(),
{
    if cs.len() == 0 {
        st
    } else {
        stop_step(stop_scan_chars(st, t, cs.drop_last()), t, cs.last())
    }
}

/// The scan after the input of `events` (other events are ignored).
pub open spec fn stop_scan(events: Seq<RawEvent>) -> StopScan
    decreases events.len(),
{
    if events.len() == 0 {
        (Seq::<char>::empty(), None, None)
    } else {
        let st = stop_scan(events.drop_last());
        match events.last() {
            RawEvent::Input { t_ms, bytes } => stop_scan_chars(st, t_ms, bytes@),
            _ => st,
        }
    }
}

/// When the user started typing the final `demo stop` line, if the capture
/// ended that way; an unterminated last line counts too.
pub open spec fn stop_cutoff_spec(events: Seq<RawEvent>) -> Option<u64> {
    let (line, start, cutoff) = stop_scan(events);
    if is_stop_line(line) {
        match cutoff {
            Some(c) => Some(c),
            None => start,
        }
    } else {
        cutoff
    }
}

fn is_stop(line: &Vec<char>) -> (r: bool)
    ensures
        r == is_stop_line(line@),
{
    let (a, b) = trim_bounds(line);
    let t = slice_of(line, a, b);
    let stop = chars_of(crate::STOP_COMMAND);
    seq_eq(&t, &stop)
}

/// The `t_ms` at which the user started typing the final `demo stop` line, if
/// the capture ended that way — so its echo (and the "stopping" message) can
/// be dropped.
pub fn stop_cutoff_ms(raw: &RawMacro) -> (r: Option<u64>)
    ensures
        r == stop_cutoff_spec(raw.events@),
{
    let mut line: Vec<char> = Vec::new();
    let mut line_start: Option<u64> = None;
    let mut cutoff: Option<u64> = None;
    let mut k: usize = 0;
    while k < raw.events.len()
        invariant
            0 <= k <= raw.events@.len(),
            (line@, line_start, cutoff) == stop_scan(raw.events@.take(k as int)),
        decreases raw.events@.len() - k,
    {
        proof {
            assert(raw.events@.take(k + 1).drop_last() =~= raw.events@.take(k as int));
        }
        match &raw.events[k] {
            RawEvent::Input { t_ms, bytes } => {
                let cs = chars_of(bytes.as_str());
                let ghost st0 = (line@, line_start, cutoff);
                let mut i: usize = 0;
                while i < cs.len()
                    invariant
                        0 <= i <= cs@.len(),
                        (line@, line_start, cutoff) == stop_scan_chars(st0, *t_ms, cs@.take(i as int)),
                    decreases cs@.len() - i,
                {
                    proof {
                        assert(cs@.take(i + 1).drop_last() =~= cs@.take(i as int));
                    }
                    let c = cs[i];
                    if c == '\r' || c == '\n' {
                        if is_stop(&line) {
                            cutoff = line_start;
                        }
                        line = Vec::new();
                        line_start = None;
                        assert(line@ =~= Seq::<char>::empty());
                    } else if is_control_char(c) {
                    } else {
                        if line_start.is_none() {
                            line_start = Some(*t_ms);
                        }
                        line.push(c);
                    }
                    i += 1;
                }
                assert(cs@.take(i as int) =~= cs@);
            },
            _ => {},
        }
        k += 1;
    }
    assert(raw.events@.take(k as int) =~= raw.events@);
    if is_stop(&line) {
        if cutoff.is_none() {
            cutoff = line_start;
        }
    }
    cutoff
}

// ---------------------------------------------------------------------------
// Which scores need the compositing stage
// ---------------------------------------------------------------------------

/// A terminal pane that does not fill the canvas exactly.
pub open spec fn offset_terminal(p: Pane, w: u32, h: u32) -> bool {
    p.kind == PaneKind::Terminal && (p.x != 0 || p.y != 0 || p.width != w || p.height != h)
}

/// A score needs the compositing stage when it has a browser pane, more than
/// one terminal pane, or a terminal pane that doesn't fill the canvas.
pub open spec fn needs_stage_spec(s: Score) -> bool {
    let panes = s.layout.panes@;
    ||| exists|i: int| 0 <= i < panes.len() && (#[trigger] panes[i]).kind == PaneKind::Browser
    ||| exists|i: int, j: int|
        0 <= i < j < panes.len() && (#[trigger] panes[i]).kind == PaneKind::Terminal
            && (#[trigger] panes[j]).kind == PaneKind::Terminal
    ||| exists|i: int|
        0 <= i < panes.len() && offset_terminal(#[trigger] panes[i], s.layout.width, s.layout.height)
}

/// True when a score has more than one pane, any browser pane, or a terminal
/// pane that doesn't fill the canvas — the cases that need the compositing
/// stage rather than the single-terminal fast path.
pub fn needs_stage(score: &Score) -> (r: bool)
    ensures
        r == needs_stage_spec(*score),
{
    let panes = &score.layout.panes;
    let mut browser = false;
    let mut first_terminal: Option<usize> = None;
    let mut two_terminals = false;
    let mut offset = false;
    let mut i: usize = 0;
    while i < panes.len()
        invariant
            0 <= i <= panes@.len(),
            panes == &score.layout.panes,
            browser == exists|k: int| 0 <= k < i && (#[trigger] panes@[k]).kind == PaneKind::Browser,
            match first_terminal {
                Some(t) => t < i && panes@[t as int].kind == PaneKind::Terminal,
                None => forall|k: int| 0 <= k < i ==> (#[trigger] panes@[k]).kind != PaneKind::Terminal,
            },
            two_terminals == exists|a: int, b: int|
                0 <= a < b < i && (#[trigger] panes@[a]).kind == PaneKind::Terminal
                    && (#[trigger] panes@[b]).kind == PaneKind::Terminal,
            offset == exists|k: int|
                0 <= k < i && offset_terminal(
                    #[trigger] panes@[k],
                    score.layout.width,
                    score.layout.height,
                ),
        decreases panes@.len() - i,
    {
        let p = &panes[i];
        if p.kind == PaneKind::Browser {
            browser = true;
        }
        if p.kind == PaneKind::Terminal {
            match first_terminal {
                Some(t) => {
                    two_terminals = true;
                    assert(panes@[t as int].kind == PaneKind::Terminal);
                },
                None => {
                    first_terminal = Some(i);
                },
            }
            if p.x != 0 || p.y != 0 || p.width != score.layout.width || p.height != score.layout.height {
                offset = true;
            }
        }
        proof {
            if !two_terminals {
                assert forall|a: int, b: int|
                    0 <= a < b < i + 1 && (#[trigger] panes@[a]).kind == PaneKind::Terminal implies (
                    #[trigger] panes@[b]).kind != PaneKind::Terminal by {
                    if b == i {
                    }
                }
            }
        }
        i += 1;
    }
    browser || two_terminals || offset
}

} // verus!
