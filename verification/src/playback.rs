//! A faithful playback of a raw capture: its output and reveals on a clock
//! with the trailing `demo stop` cut, the excised spans dropped and long idle
//! gaps trimmed; how long it plays; and the layout its reveals build.

use vstd::prelude::*;
use crate::model::{
    opt_str, reveal_pane_view, Layout, Orientation, Pane, PaneKind, RawEvent, RawMacro, RevealPane,
    ScrollDirection, Step, Velocity,
};
use crate::recording::{
    base_layout, base_layout_ok, browser_pane, canvas_px, pane_rects, pane_rects_spec,
    stop_cutoff_ms, stop_cutoff_spec,
};
use crate::text::{decimal, decimal_string, push_str};
use crate::reveals::panes_view;

verus! {

broadcast use vstd::string::group_string_axioms;

/// The longest pause kept between consecutive played events, in ms.
pub const MAX_GAP_MS: u64 = 1200;

/// How long the last frame is held after the last output, in ms.
pub const TAIL_HOLD_MS: u64 = 1800;

/// How long a revealed page stays on screen without an explicit hold, in ms.
pub const DEFAULT_REVEAL_HOLD_MS: u64 = 6000;

/// The same for a scrolling page, in ms.
pub const DEFAULT_SCROLL_HOLD_MS: u64 = 8000;

/// How long a reveal keeps its page on screen: the explicit hold, else the
/// scrolling default, else the plain default.
pub open spec fn reveal_hold_spec(hold: Option<u64>, scroll: bool) -> u64 {
    match hold {
        Some(h) => h,
        None => if scroll {
            DEFAULT_SCROLL_HOLD_MS
        } else {
            DEFAULT_REVEAL_HOLD_MS
        },
    }
}

/// How long a reveal keeps its page on screen, in ms.
pub fn reveal_hold_ms(hold: Option<u64>, scroll: bool) -> (r: u64)
    ensures
        r == reveal_hold_spec(hold, scroll),
{
    match hold {
        Some(h) => h,
        None => if scroll {
            DEFAULT_SCROLL_HOLD_MS
        } else {
            DEFAULT_REVEAL_HOLD_MS
        },
    }
}

/// Time `t` falls inside one of the excised spans `[start, end)`.
pub open spec fn muted_at(spans: Seq<(u64, u64)>, t: u64) -> bool {
    exists|i: int| 0 <= i < spans.len() && (#[trigger] spans[i]).0 <= t && t < spans[i].1
}

/// Whether time `t` falls inside one of the excised spans.
pub fn is_muted(spans: &[(u64, u64)], t: u64) -> (r: bool)
    ensures
        r == muted_at(spans@, t),
{
    let mut i: usize = 0;
    while i < spans.len()
        invariant
            0 <= i <= spans@.len(),
            forall|j: int| 0 <= j < i ==> !((#[trigger] spans@[j]).0 <= t && t < spans@[j].1),
        decreases spans@.len() - i,
    {
        let (a, b) = spans[i];
        if a <= t && t < b {
            return true;
        }
        i += 1;
    }
    false
}

/// The time an event was recorded at.
pub open spec fn event_time(e: RawEvent) -> u64 {
    match e {
        RawEvent::Input { t_ms, .. } => t_ms,
        RawEvent::Output { t_ms, .. } => t_ms,
        RawEvent::Reveal { t_ms, .. } => t_ms,
        RawEvent::Secret { t_ms, .. } => t_ms,
    }
}

/// An event is played back: output outside the excised spans and reveals,
/// both before the cutoff of a trailing `demo stop` (typed input and secrets
/// are echoed by the output already).
pub open spec fn plays(e: RawEvent, cutoff: Option<u64>, spans: Seq<(u64, u64)>) -> bool {
    let before_cutoff = match cutoff {
        Some(c) => event_time(e) < c,
        None => true,
    };
    match e {
        RawEvent::Output { t_ms, .. } => before_cutoff && !muted_at(spans, t_ms),
        RawEvent::Reveal { .. } => before_cutoff,
        _ => false,
    }
}

/// The playback clock after `es`, with the time of the last played event:
/// each played event advances it by the time since the previous one (or since
/// the start), at most `MAX_GAP_MS`.
pub open spec fn clock(es: Seq<RawEvent>, cutoff: Option<u64>, spans: Seq<(u64, u64)>) -> (nat, Option<u64>)
    decreases es.len(),
{
    if es.len() == 0 {
        (0, None)
    } else {
        let (acc, prev) = clock(es.drop_last(), cutoff, spans);
        let e = es.last();
        if plays(e, cutoff, spans) {
            let t = event_time(e);
            let gap: int = match prev {
                Some(p) => if t >= p {
                    t - p
                } else {
                    0
                },
                None => t as int,
            };
            let step: nat = if gap > MAX_GAP_MS {
                MAX_GAP_MS as nat
            } else {
                gap as nat
            };
            (acc + step, Some(t))
        } else {
            (acc, prev)
        }
    }
}

/// The played output of `es`: each chunk with its time on the playback clock.
pub open spec fn played_outputs(es: Seq<RawEvent>, cutoff: Option<u64>, spans: Seq<(u64, u64)>) -> Seq<
    (nat, Seq<char>),
>
    decreases es.len(),
{
    if es.len() == 0 {
        Seq::empty()
    } else {
        let rest = played_outputs(es.drop_last(), cutoff, spans);
        match es.last() {
            RawEvent::Output { data, .. } => if plays(es.last(), cutoff, spans) {
                rest.push((clock(es, cutoff, spans).0, data@))
            } else {
                rest
            },
            _ => rest,
        }
    }
}

/// The played reveals of `es`: each reveal event with its time on the
/// playback clock.
pub open spec fn played_reveals(es: Seq<RawEvent>, cutoff: Option<u64>, spans: Seq<(u64, u64)>) -> Seq<
    (nat, RawEvent),
>
    decreases es.len(),
{
    if es.len() == 0 {
        Seq::empty()
    } else {
        let rest = played_reveals(es.drop_last(), cutoff, spans);
        match es.last() {
            RawEvent::Reveal { .. } => if plays(es.last(), cutoff, spans) {
                rest.push((clock(es, cutoff, spans).0, es.last()))
            } else {
                rest
            },
            _ => rest,
        }
    }
}

/// The playback clock never runs backwards, and an event moves it on by at
/// most `MAX_GAP_MS`.
proof fn lemma_clock_step(es: Seq<RawEvent>, cutoff: Option<u64>, spans: Seq<(u64, u64)>)
    requires
        es.len() > 0,
    ensures
        clock(es.drop_last(), cutoff, spans).0 <= clock(es, cutoff, spans).0 <= clock(
            es.drop_last(),
            cutoff,
            spans,
        ).0 + MAX_GAP_MS,
        !plays(es.last(), cutoff, spans) ==> clock(es, cutoff, spans) == clock(es.drop_last(), cutoff, spans),
{
}

/// No reveal happens in `es` (a terminal-only capture).
pub open spec fn no_reveals(es: Seq<RawEvent>) -> bool {
    forall|k: int| 0 <= k < es.len() ==> !(#[trigger] es[k] is Reveal)
}

/// Played output comes out in order on the playback clock, never ahead of it;
/// and in a capture without reveals each output chunk follows the one before
/// it (the first, the start) by at most `MAX_GAP_MS`: longer pauses are
/// trimmed to that.
pub proof fn lemma_played_output_gaps(es: Seq<RawEvent>, cutoff: Option<u64>, spans: Seq<(u64, u64)>)
    ensures
        ({
            let outs = played_outputs(es, cutoff, spans);
            &&& forall|i: int, j: int| 0 <= i <= j < outs.len() ==> #[trigger] outs[i].0 <= #[trigger] outs[j].0
            &&& outs.len() > 0 ==> outs.last().0 <= clock(es, cutoff, spans).0
            &&& no_reveals(es) ==> {
                &&& outs.len() > 0 ==> outs.last().0 == clock(es, cutoff, spans).0
                &&& outs.len() == 0 ==> clock(es, cutoff, spans) == (0nat, None::<u64>)
                &&& outs.len() > 0 ==> outs[0].0 <= MAX_GAP_MS
                &&& forall|i: int| 0 < i < outs.len() ==> #[trigger] outs[i].0 - outs[i - 1].0 <= MAX_GAP_MS
            }
        }),
    decreases es.len(),
{
    if es.len() > 0 {
        let prefix = es.drop_last();
        lemma_played_output_gaps(prefix, cutoff, spans);
        lemma_clock_step(es, cutoff, spans);
        let rest = played_outputs(prefix, cutoff, spans);
        let outs = played_outputs(es, cutoff, spans);
        if no_reveals(es) {
            assert(no_reveals(prefix)) by {
                assert forall|k: int| 0 <= k < prefix.len() implies !(#[trigger] prefix[k] is Reveal) by {
                    assert(prefix[k] == es[k]);
                }
            }
            assert(!(es[es.len() - 1] is Reveal));
        }
        match es.last() {
            RawEvent::Output { data, .. } => {
                if plays(es.last(), cutoff, spans) {
                    assert(outs == rest.push((clock(es, cutoff, spans).0, data@)));
                } else {
                    assert(outs == rest);
                }
            },
            _ => {
                assert(outs == rest);
            },
        }
    }
}

/// A reveal on the playback clock.
pub struct TimedReveal {
    pub t_ms: u64,
    pub panes: Vec<RevealPane>,
    pub orientation: Orientation,
    pub hold_ms: Option<u64>,
    pub scroll: bool,
}

/// `r` is the reveal event `e` at playback time `t`.
pub open spec fn timed_as(r: TimedReveal, t: nat, e: RawEvent) -> bool {
    match e {
        RawEvent::Reveal { panes, orientation, hold_ms, scroll, .. } => {
            &&& r.t_ms == t
            &&& panes_view(r.panes@) == panes_view(panes@)
            &&& r.orientation == orientation
            &&& r.hold_ms == hold_ms
            &&& r.scroll == scroll
        },
        _ => false,
    }
}

/// The views of timed output.
pub open spec fn outs_view(outs: Seq<(u64, String)>) -> Seq<(nat, Seq<char>)> {
    outs.map_values(|o: (u64, String)| (o.0 as nat, o.1@))
}

proof fn lemma_clock_bound(es: Seq<RawEvent>, cutoff: Option<u64>, spans: Seq<(u64, u64)>)
    ensures
        clock(es, cutoff, spans).0 <= MAX_GAP_MS * es.len(),
    decreases es.len(),
{
    if es.len() > 0 {
        lemma_clock_bound(es.drop_last(), cutoff, spans);
    }
}

/// A copy of a list of reveal panes.
fn copy_panes(ps: &Vec<RevealPane>) -> (r: Vec<RevealPane>)
    ensures
        panes_view(r@) == panes_view(ps@),
{
    let mut r: Vec<RevealPane> = Vec::new();
    let mut k: usize = 0;
    while k < ps.len()
        invariant
            0 <= k <= ps@.len(),
            r@.len() == k,
            forall|j: int| 0 <= j < k ==> reveal_pane_view(#[trigger] r@[j]) == reveal_pane_view(ps@[j]),
        decreases ps@.len() - k,
    {
        r.push(ps[k].copy());
        k += 1;
    }
    assert(panes_view(r@) =~= panes_view(ps@));
    r
}

/// The played output and reveals of a capture on its playback clock (see
/// `clock`), both in recording order.
pub fn play_clock(raw: &RawMacro) -> (r: (Vec<(u64, String)>, Vec<TimedReveal>))
    requires
        raw.events@.len() * MAX_GAP_MS <= u64::MAX,
    ensures
        ({
            let cutoff = stop_cutoff_spec(raw.events@);
            let spans = raw.meta.mute_spans@;
            let rs = played_reveals(raw.events@, cutoff, spans);
            &&& outs_view(r.0@) == played_outputs(raw.events@, cutoff, spans)
            &&& r.1@.len() == rs.len()
            &&& forall|i: int| 0 <= i < rs.len() ==> timed_as(#[trigger] r.1@[i], rs[i].0, rs[i].1)
        }),
{
    let cutoff = stop_cutoff_ms(raw);
    let ghost spans = raw.meta.mute_spans@;
    let ghost es = raw.events@;
    let mut outs: Vec<(u64, String)> = Vec::new();
    let mut reveals: Vec<TimedReveal> = Vec::new();
    let mut acc: u64 = 0;
    let mut prev: Option<u64> = None;
    let mut k: usize = 0;
    while k < raw.events.len()
        invariant
            0 <= k <= es.len(),
            es == raw.events@,
            spans == raw.meta.mute_spans@,
            cutoff == stop_cutoff_spec(es),
            es.len() * MAX_GAP_MS <= u64::MAX,
            (acc as nat, prev) == clock(es.take(k as int), cutoff, spans),
            outs_view(outs@) == played_outputs(es.take(k as int), cutoff, spans),
            reveals@.len() == played_reveals(es.take(k as int), cutoff, spans).len(),
            forall|i: int|
                0 <= i < reveals@.len() ==> timed_as(
                    #[trigger] reveals@[i],
                    played_reveals(es.take(k as int), cutoff, spans)[i].0,
                    played_reveals(es.take(k as int), cutoff, spans)[i].1,
                ),
        decreases es.len() - k,
    {
        let ghost pre = es.take(k as int);
        let ghost next = es.take(k + 1);
        proof {
            assert(next.drop_last() =~= pre);
            assert(next.last() == es[k as int]);
            lemma_clock_bound(pre, cutoff, spans);
        }
        let e = &raw.events[k];
        let t: u64 = match e {
            RawEvent::Input { t_ms, .. } => *t_ms,
            RawEvent::Output { t_ms, .. } => *t_ms,
            RawEvent::Reveal { t_ms, .. } => *t_ms,
            RawEvent::Secret { t_ms, .. } => *t_ms,
        };
        let before_cutoff = match cutoff {
            Some(c) => t < c,
            None => true,
        };
        let played = match e {
            RawEvent::Output { .. } => before_cutoff && !is_muted(raw.meta.mute_spans.as_slice(), t),
            RawEvent::Reveal { .. } => before_cutoff,
            _ => false,
        };
        if played {
            let gap: u64 = match prev {
                Some(p) => t.saturating_sub(p),
                None => t,
            };
            let step: u64 = if gap > MAX_GAP_MS {
                MAX_GAP_MS
            } else {
                gap
            };
            proof {
                assert(acc + step <= MAX_GAP_MS * (k + 1)) by (nonlinear_arith)
                    requires
                        acc <= MAX_GAP_MS * k,
                        step <= MAX_GAP_MS,
                ;
                assert(MAX_GAP_MS * (k + 1) <= MAX_GAP_MS * es.len()) by (nonlinear_arith)
                    requires
                        k + 1 <= es.len(),
                ;
            }
            acc = acc + step;
            prev = Some(t);
            match e {
                RawEvent::Output { data, .. } => {
                    let ghost before = outs@;
                    outs.push((acc, data.clone()));
                    assert(outs_view(outs@) =~= outs_view(before).push((acc as nat, data@)));
                },
                RawEvent::Reveal { panes, orientation, hold_ms, scroll, .. } => {
                    reveals.push(
                        TimedReveal {
                            t_ms: acc,
                            panes: copy_panes(panes),
                            orientation: *orientation,
                            hold_ms: *hold_ms,
                            scroll: *scroll,
                        },
                    );
                },
                _ => {},
            }
        }
        k += 1;
    }
    proof {
        assert(es.take(k as int) =~= es);
    }
    (outs, reveals)
}


// ---------------------------------------------------------------------------
// How long it plays
// ---------------------------------------------------------------------------

/// When the played output ends, its last frame held: 0 without output.
pub open spec fn output_tail(outs: Seq<(nat, Seq<char>)>) -> nat {
    if outs.len() == 0 {
        0
    } else {
        outs.last().0 + TAIL_HOLD_MS as nat
    }
}

/// When the last revealed page leaves the screen: the latest reveal time plus
/// its hold (0 without reveals).
pub open spec fn reveals_tail(rs: Seq<TimedReveal>) -> nat
    decreases rs.len(),
{
    if rs.len() == 0 {
        0
    } else {
        let rest = reveals_tail(rs.drop_last());
        let end = rs.last().t_ms + reveal_hold_spec(rs.last().hold_ms, rs.last().scroll);
        if end > rest {
            end as nat
        } else {
            rest
        }
    }
}

/// How long a playback lasts: until the held last frame, or until the last
/// revealed page has had its hold, whichever is later.
pub fn playback_duration_ms(outs: &[(u64, String)], reveals: &[TimedReveal]) -> (r: u128)
    ensures
        r == (if output_tail(outs_view(outs@)) > reveals_tail(reveals@) {
            output_tail(outs_view(outs@))
        } else {
            reveals_tail(reveals@)
        }),
{
    let tail: u128 = if outs.len() == 0 {
        0
    } else {
        outs[outs.len() - 1].0 as u128 + TAIL_HOLD_MS as u128
    };
    let mut best: u128 = 0;
    let mut k: usize = 0;
    while k < reveals.len()
        invariant
            0 <= k <= reveals@.len(),
            best == reveals_tail(reveals@.take(k as int)),
            best <= u64::MAX as u128 * 2,
        decreases reveals@.len() - k,
    {
        assert(reveals@.take(k + 1).drop_last() =~= reveals@.take(k as int));
        let r = &reveals[k];
        let end: u128 = r.t_ms as u128 + reveal_hold_ms(r.hold_ms, r.scroll) as u128;
        if end > best {
            best = end;
        }
        k += 1;
    }
    assert(reveals@.take(k as int) =~= reveals@);
    if tail > best {
        tail
    } else {
        best
    }
}

// ---------------------------------------------------------------------------
// The layout the reveals build
// ---------------------------------------------------------------------------

/// What one revealed browser page becomes: its pane id (the source id, `-r`
/// and the reveal's number, so re-showing a source captures it afresh), URL
/// (empty when none), theme, rectangle, on-screen window and scroll.
pub struct OverlaySpec {
    pub id: Seq<char>,
    pub url: Seq<char>,
    pub theme: Option<Seq<char>>,
    pub rect: (u32, u32, u32, u32),
    pub reveal_at: u64,
    pub hide_at: Option<u64>,
    pub scroll: bool,
    pub hold: u64,
}

/// The overlay of pane `idx` (`p`) of reveal number `i` (from 0), shown until
/// `hide`, on a `cw`×`ch` canvas.
pub open spec fn overlay_of(
    i: int,
    idx: int,
    p: RevealPane,
    r: TimedReveal,
    hide: Option<u64>,
    cw: u32,
    ch: u32,
) -> OverlaySpec {
    let rects = pane_rects_spec(cw as int, ch as int, r.panes@.len() as int, r.orientation);
    OverlaySpec {
        id: p.id@ + "-r"@ + decimal((i + 1) as nat),
        url: match opt_str(p.url) {
            Some(u) => u,
            None => Seq::<char>::empty(),
        },
        theme: opt_str(p.theme),
        rect: if idx < rects.len() {
            rects[idx]
        } else {
            (0u32, 0u32, cw, ch)
        },
        reveal_at: r.t_ms,
        hide_at: hide,
        scroll: r.scroll,
        hold: reveal_hold_spec(r.hold_ms, r.scroll),
    }
}

/// The overlays of the first `n` panes of reveal number `i`: the terminal
/// (`main`) is the background, so only the other panes become overlays.
pub open spec fn reveal_overlays(i: int, r: TimedReveal, n: int, hide: Option<u64>, cw: u32, ch: u32) -> Seq<
    OverlaySpec,
>
    decreases n,
{
    if n <= 0 {
        Seq::empty()
    } else {
        let rest = reveal_overlays(i, r, n - 1, hide, cw, ch);
        let p = r.panes@[n - 1];
        if p.is_terminal_spec() {
            rest
        } else {
            rest.push(overlay_of(i, n - 1, p, r, hide, cw, ch))
        }
    }
}

/// When reveal `i` is hidden: at the next reveal, if any.
pub open spec fn hide_of(rs: Seq<TimedReveal>, i: int) -> Option<u64> {
    if i + 1 < rs.len() {
        Some(rs[i + 1].t_ms)
    } else {
        None
    }
}

/// The overlays of the first `n` reveals, in order.
pub open spec fn all_overlays(rs: Seq<TimedReveal>, n: int, cw: u32, ch: u32) -> Seq<OverlaySpec>
    decreases n,
{
    if n <= 0 {
        Seq::empty()
    } else {
        all_overlays(rs, n - 1, cw, ch) + reveal_overlays(
            n - 1,
            rs[n - 1],
            rs[n - 1].panes@.len() as int,
            hide_of(rs, n - 1),
            cw,
            ch,
        )
    }
}

/// `p` is the browser pane of overlay `o`.
pub open spec fn pane_of_overlay(p: Pane, o: OverlaySpec) -> bool {
    &&& p.id@ == o.id
    &&& p.kind == PaneKind::Browser
    &&& (p.x, p.y, p.width, p.height) == o.rect
    &&& opt_str(p.url) == Some(o.url)
    &&& opt_str(p.theme) == o.theme
}

/// The scroll steps of the overlays: for each scrolling one, a focus on it and
/// a downward scroll for its hold.
pub open spec fn scroll_steps_of(os: Seq<OverlaySpec>) -> Seq<(Seq<char>, u64)>
    decreases os.len(),
{
    if os.len() == 0 {
        Seq::empty()
    } else {
        let rest = scroll_steps_of(os.drop_last());
        if os.last().scroll {
            rest.push((os.last().id, os.last().hold))
        } else {
            rest
        }
    }
}

/// `timeline` holds, for each `(id, ms)` of `steps`, a focus on `id` then a
/// downward constant scroll of it lasting `ms`.
pub open spec fn scroll_timeline(timeline: Seq<Step>, steps: Seq<(Seq<char>, u64)>) -> bool {
    &&& timeline.len() == 2 * steps.len()
    &&& forall|j: int|
        0 <= j < steps.len() ==> {
            &&& (match #[trigger] timeline[2 * j] {
                Step::Focus { pane } => opt_str(pane) == Some(steps[j].0),
                _ => false,
            })
            &&& (match timeline[2 * j + 1] {
                Step::Scroll { direction, velocity, duration_ms, pane } => direction
                    == ScrollDirection::Down && velocity == Velocity::Constant && duration_ms
                    == steps[j].1 && opt_str(pane) == Some(steps[j].0),
                _ => false,
            })
        }
}

/// What the reveals add besides panes: each browser pane's on-screen window
/// and the focus that reveals it (both in pane order), and the scroll steps.
pub struct RevealTracks {
    pub windows: Vec<(u64, Option<u64>)>,
    pub focuses: Vec<(u64, String)>,
    pub timeline: Vec<Step>,
}

/// The pane id of an overlay: `id-rN`.
fn overlay_id(id: &str, n: u64) -> (r: String)
    ensures
        r@ == id@ + "-r"@ + decimal(n as nat),
{
    let mut r = String::new();
    push_str(&mut r, id);
    push_str(&mut r, "-r");
    let d = decimal_string(n);
    push_str(&mut r, d.as_str());
    r
}

/// The panes `new` are `old` followed by the browser panes of overlays `os`,
/// with their windows and focuses in `t`.
pub open spec fn overlays_added(old: Seq<Pane>, new: Seq<Pane>, os: Seq<OverlaySpec>, t: RevealTracks) -> bool {
    &&& new.len() == old.len() + os.len()
    &&& new.take(old.len() as int) == old
    &&& t.windows@.len() == os.len()
    &&& t.focuses@.len() == os.len()
    &&& forall|k: int|
        0 <= k < os.len() ==> {
            &&& pane_of_overlay(#[trigger] new[old.len() + k], os[k])
            &&& t.windows@[k] == (os[k].reveal_at, os[k].hide_at)
            &&& t.focuses@[k].0 == os[k].reveal_at
            &&& t.focuses@[k].1@ == os[k].id
        }
    &&& scroll_timeline(t.timeline@, scroll_steps_of(os))
}

/// Adds the browser panes the reveals build to `layout` (on its canvas, see
/// `all_overlays`), each on screen from its reveal until the next one, and
/// returns their windows, their focuses and, for scrolling reveals, the scroll
/// steps; everything else of the layout stays.
pub fn add_reveal_overlays(layout: &mut Layout, reveals: &[TimedReveal]) -> (r: RevealTracks)
    requires
        reveals@.len() < u64::MAX,
    ensures
        *final(layout) == (Layout { panes: final(layout).panes, ..*old(layout) }),
        overlays_added(
            old(layout).panes@,
            final(layout).panes@,
            all_overlays(reveals@, reveals@.len() as int, old(layout).width, old(layout).height),
            r,
        ),
{
    let cw = layout.width;
    let ch = layout.height;
    let ghost rs = reveals@;
    let ghost l0 = *layout;
    let ghost p0 = layout.panes@;
    let mut tracks = RevealTracks { windows: Vec::new(), focuses: Vec::new(), timeline: Vec::new() };
    proof {
        assert(layout.panes@.take(p0.len() as int) =~= p0);
    }
    let mut i: usize = 0;
    while i < reveals.len()
        invariant
            0 <= i <= rs.len(),
            rs == reveals@,
            rs.len() < u64::MAX,
            cw == l0.width,
            ch == l0.height,
            p0 == l0.panes@,
            *layout == (Layout { panes: layout.panes, ..l0 }),
            overlays_added(p0, layout.panes@, all_overlays(rs, i as int, cw, ch), tracks),
        decreases rs.len() - i,
    {
        let r = &reveals[i];
        let hide: Option<u64> = if i + 1 < reveals.len() {
            Some(reveals[i + 1].t_ms)
        } else {
            None
        };
        assert(hide == hide_of(rs, i as int));
        let rects = pane_rects(cw, ch, r.panes.len(), r.orientation);
        let hold = reveal_hold_ms(r.hold_ms, r.scroll);
        let ghost before = all_overlays(rs, i as int, cw, ch);
        let mut idx: usize = 0;
        proof {
            assert(before + reveal_overlays(i as int, *r, 0, hide, cw, ch) =~= before);
        }
        while idx < r.panes.len()
            invariant
                0 <= i < rs.len(),
                rs == reveals@,
                rs.len() < u64::MAX,
                *r == rs[i as int],
                cw == l0.width,
                ch == l0.height,
                p0 == l0.panes@,
                hide == hide_of(rs, i as int),
                rects@ == pane_rects_spec(cw as int, ch as int, r.panes@.len() as int, r.orientation),
                hold == reveal_hold_spec(r.hold_ms, r.scroll),
                before == all_overlays(rs, i as int, cw, ch),
                0 <= idx <= r.panes@.len(),
                *layout == (Layout { panes: layout.panes, ..l0 }),
                overlays_added(
                    p0,
                    layout.panes@,
                    before + reveal_overlays(i as int, *r, idx as int, hide, cw, ch),
                    tracks,
                ),
            decreases r.panes@.len() - idx,
        {
            let p = &r.panes[idx];
            let ghost os = before + reveal_overlays(i as int, *r, idx as int, hide, cw, ch);
            let ghost os1 = before + reveal_overlays(i as int, *r, idx + 1, hide, cw, ch);
            if p.is_terminal() {
                assert(os1 =~= os);
            } else {
                let ghost o = overlay_of(i as int, idx as int, *p, *r, hide, cw, ch);
                assert(os1 =~= os.push(o));
                let (x, y, w, hgt) = if idx < rects.len() {
                    rects[idx]
                } else {
                    (0u32, 0u32, cw, ch)
                };
                let id = overlay_id(p.id.as_str(), i as u64 + 1);
                let url_s = match &p.url {
                    Some(u) => u.clone(),
                    None => String::new(),
                };
                let theme = match &p.theme {
                    Some(t) => Some(t.clone()),
                    None => None,
                };
                let pane = browser_pane(id.as_str(), url_s.as_str(), x, y, w, hgt, theme);
                let ghost panes_before = layout.panes@;
                let ghost tl_before = tracks.timeline@;
                layout.panes.push(pane);
                tracks.windows.push((r.t_ms, hide));
                tracks.focuses.push((r.t_ms, id.clone()));
                if r.scroll {
                    tracks.timeline.push(Step::Focus { pane: Some(id.clone()) });
                    tracks.timeline.push(
                        Step::Scroll {
                            direction: ScrollDirection::Down,
                            velocity: Velocity::Constant,
                            duration_ms: hold,
                            pane: Some(id),
                        },
                    );
                }
                proof {
                    assert(layout.panes@.take(p0.len() as int) =~= panes_before.take(p0.len() as int));
                    assert(os1.drop_last() =~= os);
                    let steps = scroll_steps_of(os);
                    let steps1 = scroll_steps_of(os1);
                    if r.scroll {
                        assert(steps1 == steps.push((o.id, o.hold)));
                        assert forall|j: int| 0 <= j < steps1.len() implies {
                            &&& (match #[trigger] tracks.timeline@[2 * j] {
                                Step::Focus { pane } => opt_str(pane) == Some(steps1[j].0),
                                _ => false,
                            })
                            &&& (match tracks.timeline@[2 * j + 1] {
                                Step::Scroll { direction, velocity, duration_ms, pane } => direction
                                    == ScrollDirection::Down && velocity == Velocity::Constant
                                    && duration_ms == steps1[j].1 && opt_str(pane) == Some(
                                    steps1[j].0,
                                ),
                                _ => false,
                            })
                        } by {
                            if j < steps.len() {
                                assert(tracks.timeline@[2 * j] == tl_before[2 * j]);
                                assert(tracks.timeline@[2 * j + 1] == tl_before[2 * j + 1]);
                            }
                        }
                    } else {
                        assert(steps1 == steps);
                    }
                }
            }
            idx += 1;
        }
        proof {
            assert(all_overlays(rs, i + 1, cw, ch) =~= before + reveal_overlays(
                i as int,
                *r,
                r.panes@.len() as int,
                hide,
                cw,
                ch,
            ));
        }
        i += 1;
    }
    tracks
}


// ---------------------------------------------------------------------------
// The whole playback
// ---------------------------------------------------------------------------

/// A faithful playback of a capture, times in ms on its playback clock: the
/// grid, the title, the played output, the focuses on revealed pages, how long
/// it plays, the layout (with each browser pane's on-screen window, in pane
/// order after the terminal) and the scroll steps.
pub struct Playback {
    pub cols: u16,
    pub rows: u16,
    pub title: String,
    pub events: Vec<(u64, String)>,
    pub focuses: Vec<(u64, String)>,
    pub duration_ms: u128,
    pub layout: Layout,
    pub windows: Vec<(u64, Option<u64>)>,
    pub timeline: Vec<Step>,
}

/// The faithful playback of `raw` (see `play_clock`, `playback_duration_ms`,
/// `base_layout` and `add_reveal_overlays`), titled `name`.
pub fn from_raw(raw: &RawMacro, name: &str) -> (p: Playback)
    requires
        raw.events@.len() * MAX_GAP_MS <= u64::MAX,
    ensures
        ({
            let cutoff = stop_cutoff_spec(raw.events@);
            let spans = raw.meta.mute_spans@;
            let rs = played_reveals(raw.events@, cutoff, spans);
            let (cw, ch) = canvas_px(raw.meta.cols as int, raw.meta.rows as int, raw.meta.resolution);
            &&& p.cols == raw.meta.cols
            &&& p.rows == raw.meta.rows
            &&& p.title@ == name@
            &&& outs_view(p.events@) == played_outputs(raw.events@, cutoff, spans)
            &&& exists|timed: Seq<TimedReveal>| {
                &&& timed.len() == rs.len()
                &&& (forall|i: int| 0 <= i < rs.len() ==> timed_as(#[trigger] timed[i], rs[i].0, rs[i].1))
                &&& p.duration_ms == (if output_tail(outs_view(p.events@)) > reveals_tail(timed) {
                    output_tail(outs_view(p.events@))
                } else {
                    reveals_tail(timed)
                })
                &&& exists|base: Layout| {
                    &&& base_layout_ok(base, raw.meta.cols as int, raw.meta.rows as int, raw.meta.resolution, raw.meta.fps)
                    &&& p.layout == (Layout { panes: p.layout.panes, ..base })
                    &&& overlays_added(
                        base.panes@,
                        p.layout.panes@,
                        all_overlays(timed, timed.len() as int, cw as u32, ch as u32),
                        RevealTracks { windows: p.windows, focuses: p.focuses, timeline: p.timeline },
                    )
                }
            }
        }),
{
    let (events, reveals) = play_clock(raw);
    let duration_ms = playback_duration_ms(events.as_slice(), reveals.as_slice());
    let mut layout = base_layout(raw.meta.cols, raw.meta.rows, raw.meta.resolution, raw.meta.fps);
    let ghost base = layout;
    assert(reveals@.len() < u64::MAX) by {
        assert(reveals@.len() <= raw.events@.len()) by {
            lemma_played_reveals_len(raw.events@, stop_cutoff_spec(raw.events@), raw.meta.mute_spans@);
        }
        assert(raw.events@.len() * MAX_GAP_MS <= u64::MAX);
    }
    let tracks = add_reveal_overlays(&mut layout, reveals.as_slice());
    let mut title = String::new();
    push_str(&mut title, name);
    let p = Playback {
        cols: raw.meta.cols,
        rows: raw.meta.rows,
        title,
        events,
        focuses: tracks.focuses,
        duration_ms,
        layout,
        windows: tracks.windows,
        timeline: tracks.timeline,
    };
    assert(p.layout == (Layout { panes: p.layout.panes, ..base }));
    p
}

proof fn lemma_played_reveals_len(es: Seq<RawEvent>, cutoff: Option<u64>, spans: Seq<(u64, u64)>)
    ensures
        played_reveals(es, cutoff, spans).len() <= es.len(),
    decreases es.len(),
{
    if es.len() > 0 {
        lemma_played_reveals_len(es.drop_last(), cutoff, spans);
    }
}
} // verus!
