//! What the compositing stage reads from the score: the terminal pane it
//! plays and its backdrop colour, and, for a browser pane, which `scroll`
//! steps are aimed at it, the scroll that drives it, and how many scroll
//! keyframes to capture for it.

use vstd::prelude::*;
use crate::error::Error;
use crate::model::{opt_str, Pane, PaneKind, Score, ScrollDirection, Step, Velocity};
use crate::raster::{parse_hex, parse_hex_spec};
use crate::text::{chars_of, push_str, seq_eq};

verus! {

broadcast use vstd::string::group_string_axioms;

/// The pane focused after the first `k` steps of `timeline` (by their last
/// `focus` step), if any.
pub open spec fn focused_after(timeline: Seq<Step>, k: int) -> Option<Seq<char>>
    decreases k,
{
    if k <= 0 {
        None
    } else {
        match timeline[k - 1] {
            Step::Focus { pane } => opt_str(pane),
            _ => focused_after(timeline, k - 1),
        }
    }
}

/// The pane `scroll` step `k` is aimed at: its own `pane`, else the focused one.
pub open spec fn scroll_target(timeline: Seq<Step>, k: int) -> Option<Seq<char>> {
    match timeline[k] {
        Step::Scroll { pane, .. } => match opt_str(pane) {
            Some(p) => Some(p),
            None => focused_after(timeline, k),
        },
        _ => None,
    }
}

/// Step `k` is a scroll aimed at pane `id`.
pub open spec fn aimed_at(timeline: Seq<Step>, k: int, id: Seq<char>) -> bool {
    scroll_target(timeline, k) == Some(id)
}

/// The duration of step `k` when it is a scroll aimed at `id`, else 0.
pub open spec fn aimed_ms(timeline: Seq<Step>, k: int, id: Seq<char>) -> nat {
    if aimed_at(timeline, k, id) {
        match timeline[k] {
            Step::Scroll { duration_ms, .. } => duration_ms as nat,
            _ => 0,
        }
    } else {
        0
    }
}

/// Total scrolling time, in ms, aimed at `id` by the first `n` steps.
pub open spec fn scroll_ms(timeline: Seq<Step>, n: int, id: Seq<char>) -> nat
    decreases n,
{
    if n <= 0 {
        0
    } else {
        scroll_ms(timeline, n - 1, id) + aimed_ms(timeline, n - 1, id)
    }
}

/// How many of the first `n` steps are scrolls aimed at `id`.
pub open spec fn aimed_count(timeline: Seq<Step>, n: int, id: Seq<char>) -> nat
    decreases n,
{
    if n <= 0 {
        0
    } else {
        aimed_count(timeline, n - 1, id) + if aimed_at(timeline, n - 1, id) {
            1nat
        } else {
            0nat
        }
    }
}

/// Scroll keyframes captured for pane `id`: one per 700 ms of scrolling aimed
/// at it, at most 16.
pub open spec fn scroll_keyframes_spec(timeline: Seq<Step>, id: Seq<char>) -> nat {
    let k = scroll_ms(timeline, timeline.len() as int, id) / 700;
    if k > 16 {
        16
    } else {
        k
    }
}

/// Whether an optional pane name equals `id`.
fn opt_is(o: &Option<String>, want: &Vec<char>) -> (r: bool)
    ensures
        r == (opt_str(*o) == Some(want@)),
{
    match o {
        Some(s) => {
            let v = chars_of(s.as_str());
            seq_eq(&v, want)
        },
        None => false,
    }
}

/// Walks the timeline, tracking the focused pane, and reports for each step
/// whether it is a scroll aimed at `want` (with its duration).
fn aimed_step(step: &Step, focused_is: bool, want: &Vec<char>) -> (r: Option<u64>)
    ensures
        match step {
            Step::Scroll { pane, duration_ms, .. } => {
                let hit = match opt_str(*pane) {
                    Some(p) => p == want@,
                    None => focused_is,
                };
                if hit {
                    r == Some(*duration_ms)
                } else {
                    r.is_none()
                }
            },
            _ => r.is_none(),
        },
{
    match step {
        Step::Scroll { pane, duration_ms, .. } => {
            let hit = match pane {
                Some(_) => opt_is(pane, want),
                None => focused_is,
            };
            if hit {
                Some(*duration_ms)
            } else {
                None
            }
        },
        _ => None,
    }
}

/// How many scroll keyframes to capture for browser pane `pane_id` — one per
/// 700 ms of scrolling aimed at it (explicitly or through the focus), at most
/// 16.
pub fn scroll_keyframes_for(score: &Score, pane_id: &str) -> (r: usize)
    requires
        scroll_ms(score.timeline@, score.timeline@.len() as int, pane_id@) <= u64::MAX,
    ensures
        r == scroll_keyframes_spec(score.timeline@, pane_id@),
{
    let want = chars_of(pane_id);
    let tl = &score.timeline;
    let mut focused_is = false;
    let mut ms: u64 = 0;
    let mut k: usize = 0;
    while k < tl.len()
        invariant
            0 <= k <= tl@.len(),
            want@ == pane_id@,
            focused_is == (focused_after(tl@, k as int) == Some(pane_id@)),
            ms == scroll_ms(tl@, k as int, pane_id@),
            scroll_ms(tl@, tl@.len() as int, pane_id@) <= u64::MAX,
        decreases tl@.len() - k,
    {
        let step = &tl[k];
        let hit = aimed_step(step, focused_is, &want);
        proof {
            lemma_scroll_ms_mono(tl@, k + 1, tl@.len() as int, pane_id@);
        }
        if let Some(d) = hit {
            ms = ms + d;
        }
        if let Step::Focus { pane } = step {
            focused_is = opt_is(pane, &want);
        }
        k += 1;
    }
    let q = ms / 700;
    if q > 16 {
        16
    } else {
        q as usize
    }
}

/// Scrolling time aimed at a pane only grows along the timeline.
proof fn lemma_scroll_ms_mono(timeline: Seq<Step>, a: int, b: int, id: Seq<char>)
    requires
        0 <= a <= b,
    ensures
        scroll_ms(timeline, a, id) <= scroll_ms(timeline, b, id),
    decreases b - a,
{
    if a < b {
        lemma_scroll_ms_mono(timeline, a, b - 1, id);
    }
}

/// The scroll that drives a browser pane: the first `scroll` step aimed at it
/// (its direction, easing and duration), and how many later ones were ignored.
#[derive(Debug, Clone, Copy, PartialEq, Eq, Structural)]
pub struct ScrollParams {
    pub direction: ScrollDirection,
    pub velocity: Velocity,
    pub ignored_count: usize,
    /// How long the pan lasts, from the winning step's `duration_ms`.
    pub duration_ms: u64,
}

/// The index of the first scroll aimed at `id` among the first `n` steps.
pub open spec fn first_aimed(timeline: Seq<Step>, n: int, id: Seq<char>) -> Option<int>
    decreases n,
{
    if n <= 0 {
        None
    } else {
        match first_aimed(timeline, n - 1, id) {
            Some(k) => Some(k),
            None => if aimed_at(timeline, n - 1, id) {
                Some(n - 1)
            } else {
                None
            },
        }
    }
}

/// The scroll parameters of pane `id`: from the first scroll aimed at it, with
/// the number of the others.
pub open spec fn scroll_params_spec(timeline: Seq<Step>, id: Seq<char>) -> Option<ScrollParams> {
    match first_aimed(timeline, timeline.len() as int, id) {
        Some(k) => match timeline[k] {
            Step::Scroll { direction, velocity, duration_ms, .. } => Some(
                ScrollParams {
                    direction,
                    velocity,
                    ignored_count: (aimed_count(timeline, timeline.len() as int, id) - 1) as usize,
                    duration_ms,
                },
            ),
            _ => None,
        },
        None => None,
    }
}

proof fn lemma_aimed_count_bound(timeline: Seq<Step>, n: int, id: Seq<char>)
    requires
        0 <= n,
    ensures
        aimed_count(timeline, n, id) <= n,
        first_aimed(timeline, n, id).is_none() <==> aimed_count(timeline, n, id) == 0,
        match first_aimed(timeline, n, id) {
            Some(k) => 0 <= k < n && aimed_at(timeline, k, id),
            None => true,
        },
    decreases n,
{
    if n > 0 {
        lemma_aimed_count_bound(timeline, n - 1, id);
    }
}

/// The scroll that drives pane `pane_id` (see `scroll_params_spec`); `None`
/// when no scroll is aimed at it. When several are, the first wins and
/// `ignored_count` says how many were passed over.
pub fn scroll_params_for(score: &Score, pane_id: &str) -> (r: Option<ScrollParams>)
    ensures
        r == scroll_params_spec(score.timeline@, pane_id@),
{
    let want = chars_of(pane_id);
    let tl = &score.timeline;
    let mut focused_is = false;
    let mut first: Option<ScrollParams> = None;
    let mut ignored: usize = 0;
    let mut k: usize = 0;
    while k < tl.len()
        invariant
            0 <= k <= tl@.len(),
            want@ == pane_id@,
            focused_is == (focused_after(tl@, k as int) == Some(pane_id@)),
            match first_aimed(tl@, k as int, pane_id@) {
                Some(i) => 0 <= i < k && match tl@[i] {
                    Step::Scroll { direction, velocity, duration_ms, .. } => first == Some(
                        ScrollParams { direction, velocity, ignored_count: 0, duration_ms },
                    ),
                    _ => false,
                } && ignored == aimed_count(tl@, k as int, pane_id@) - 1,
                None => first.is_none() && ignored == 0,
            },
            aimed_count(tl@, k as int, pane_id@) <= k,
        decreases tl@.len() - k,
    {
        let step = &tl[k];
        let hit = aimed_step(step, focused_is, &want);
        proof {
            lemma_aimed_count_bound(tl@, k as int, pane_id@);
        }
        if hit.is_some() {
            match first {
                None => {
                    first = match step {
                        Step::Scroll { direction, velocity, duration_ms, .. } => Some(
                            ScrollParams {
                                direction: *direction,
                                velocity: *velocity,
                                ignored_count: 0,
                                duration_ms: *duration_ms,
                            },
                        ),
                        _ => None,
                    };
                },
                Some(_) => {
                    ignored += 1;
                },
            }
        }
        if let Step::Focus { pane } = step {
            focused_is = opt_is(pane, &want);
        }
        k += 1;
    }
    proof {
        lemma_aimed_count_bound(tl@, tl@.len() as int, pane_id@);
    }
    match first {
        Some(p) => Some(
            ScrollParams {
                direction: p.direction,
                velocity: p.velocity,
                ignored_count: ignored,
                duration_ms: p.duration_ms,
            },
        ),
        None => None,
    }
}

// ---------------------------------------------------------------------------
// The stage's terminal pane and backdrop
// ---------------------------------------------------------------------------

/// The first terminal pane among the first `n` panes, if any.
pub open spec fn first_terminal(panes: Seq<Pane>, n: int) -> Option<int>
    decreases n,
{
    if n <= 0 {
        None
    } else {
        match first_terminal(panes, n - 1) {
            Some(i) => Some(i),
            None => if panes[n - 1].kind == PaneKind::Terminal {
                Some(n - 1)
            } else {
                None
            },
        }
    }
}

proof fn lemma_first_terminal_settles(panes: Seq<Pane>, a: int, b: int)
    requires
        0 <= a <= b,
        first_terminal(panes, a).is_some(),
    ensures
        first_terminal(panes, b) == first_terminal(panes, a),
    decreases b - a,
{
    if a < b {
        lemma_first_terminal_settles(panes, a, b - 1);
    }
}

/// The terminal pane a multi-scene stage plays: the first terminal pane of
/// the layout; a layout without one is refused.
pub fn stage_terminal_pane(score: &Score) -> (r: Result<&Pane, Error>)
    ensures
        match first_terminal(score.layout.panes@, score.layout.panes@.len() as int) {
            Some(i) => r matches Ok(p) && *p == score.layout.panes@[i],
            None => r matches Err(e) && e.export_text() == Some(
                "a multi-scene stage needs a terminal pane"@,
            ),
        },
{
    let panes = &score.layout.panes;
    let mut i: usize = 0;
    while i < panes.len()
        invariant
            i <= panes@.len(),
            panes@ == score.layout.panes@,
            first_terminal(panes@, i as int).is_none(),
        decreases panes@.len() - i,
    {
        if panes[i].kind == PaneKind::Terminal {
            proof {
                assert(first_terminal(panes@, i + 1) == Some(i as int));
                lemma_first_terminal_settles(panes@, i + 1, panes@.len() as int);
            }
            return Ok(&panes[i]);
        }
        i += 1;
    }
    let mut m = String::new();
    push_str(&mut m, "a multi-scene stage needs a terminal pane");
    assert(m@ =~= "a multi-scene stage needs a terminal pane"@);
    Err(Error::Export(m))
}

/// The stage's backdrop: the layout's `background` when it is a valid
/// `#rrggbb` colour, else `#0b0f14`.
pub open spec fn stage_backdrop_spec(background: Option<Seq<char>>) -> Seq<u8> {
    match background {
        Some(b) => match parse_hex_spec(b) {
            Some(c) => c,
            None => seq![11u8, 15, 20],
        },
        None => seq![11u8, 15, 20],
    }
}

/// The stage's backdrop colour.
pub fn stage_backdrop(score: &Score) -> (r: [u8; 3])
    ensures
        r@ == stage_backdrop_spec(opt_str(score.layout.background)),
{
    let fallback: [u8; 3] = [11, 15, 20];
    match &score.layout.background {
        Some(b) => match parse_hex(b.as_str()) {
            Some(c) => c,
            None => {
                assert(fallback@ =~= seq![11u8, 15, 20]);
                fallback
            },
        },
        None => {
            assert(fallback@ =~= seq![11u8, 15, 20]);
            fallback
        },
    }
}

} // verus!
