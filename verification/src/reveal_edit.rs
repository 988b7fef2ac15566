//! Editing a browser reveal in `demo edit`: how the revealed pane is placed
//! (replacing the terminal, or beside/below it), the scroll and hold steps
//! that follow the reveal, and keeping the page's URL in step across the
//! layout and the sources.

use vstd::prelude::*;
use crate::model::{
    first_pane_index, opt_str, Layout, Pane, Score, ScrollDirection, Source, Step, Velocity,
};
use crate::error::Error;
use crate::text::{before_first, before_first_end, chars_of, push_str, seq_eq, slice_of};

verus! {

broadcast use vstd::string::group_string_axioms;

/// Hold of a static reveal without an explicit hold.
pub const DEFAULT_HOLD_MS: u64 = 6000;

/// Hold of a scrolling reveal without an explicit hold.
pub const SCROLL_HOLD_MS: u64 = 8000;

/// Where a revealed pane sits.
#[derive(Debug, Clone, Copy, PartialEq, Eq, Structural)]
pub enum Placement {
    /// Full screen (a scene swap).
    Replace,
    /// Beside the terminal.
    SplitHorizontal,
    /// Below the terminal.
    SplitVertical,
}

/// The placement a pane's rectangle shows: the whole canvas, the right half
/// (full height, at most half the width plus one), the bottom half (full
/// width, at most half the height plus one), else full screen.
pub open spec fn placement_of(p: Pane, w: u32, h: u32) -> Placement {
    if p.width == w && p.height == h {
        Placement::Replace
    } else if p.height == h && p.width <= w / 2 + 1 {
        Placement::SplitHorizontal
    } else if p.width == w && p.height <= h / 2 + 1 {
        Placement::SplitVertical
    } else {
        Placement::Replace
    }
}

/// The placement `pane` currently has in `layout`.
pub fn detect_placement(pane: &Pane, layout: &Layout) -> (r: Placement)
    ensures
        r == placement_of(*pane, layout.width, layout.height),
{
    let w = layout.width;
    let h = layout.height;
    if pane.width == w && pane.height == h {
        Placement::Replace
    } else if pane.height == h && pane.width <= (w / 2).saturating_add(1) {
        Placement::SplitHorizontal
    } else if pane.width == w && pane.height <= (h / 2).saturating_add(1) {
        Placement::SplitVertical
    } else {
        Placement::Replace
    }
}

/// Whether `o` is `Some(x)` with `x` viewing as `s`.
pub open spec fn names(o: Option<String>, s: Seq<char>) -> bool {
    opt_str(o) == Some(s)
}

fn is_named(o: &Option<String>, id: &str) -> (r: bool)
    ensures
        r == names(*o, id@),
{
    match o {
        Some(x) => {
            let a = chars_of(x.as_str());
            let b = chars_of(id);
            seq_eq(&a, &b)
        },
        None => false,
    }
}

/// Whether the step right after the reveal at `focus_idx` scrolls its pane.
pub open spec fn has_scroll_after_spec(score: Score, focus_idx: int, pane_id: Seq<char>) -> bool {
    &&& focus_idx + 1 < score.timeline@.len()
    &&& score.timeline@[focus_idx + 1] matches Step::Scroll { pane, .. } && names(pane, pane_id)
}

/// Whether the reveal at `focus_idx` is followed by a scroll of `pane_id`.
pub fn has_scroll_after(score: &Score, focus_idx: usize, pane_id: &str) -> (r: bool)
    requires
        focus_idx < score.timeline@.len(),
    ensures
        r == has_scroll_after_spec(*score, focus_idx as int, pane_id@),
{
    let n = score.timeline.len();
    if focus_idx + 1 >= n {
        return false;
    }
    match &score.timeline[focus_idx + 1] {
        Step::Scroll { pane, .. } => is_named(pane, pane_id),
        _ => false,
    }
}

/// How long the reveal at `focus_idx` stays on screen: the wait after it
/// (after its scroll step, when it scrolls), else the default hold.
pub open spec fn hold_after_spec(score: Score, focus_idx: int, scroll: bool) -> u64 {
    let start = focus_idx + 1 + if scroll {
        1int
    } else {
        0int
    };
    if start < score.timeline@.len() && score.timeline@[start] is Wait {
        match score.timeline@[start] {
            Step::Wait { duration_ms } => duration_ms,
            _ => 0,
        }
    } else if scroll {
        SCROLL_HOLD_MS
    } else {
        DEFAULT_HOLD_MS
    }
}

/// How long the reveal at `focus_idx` stays on screen.
pub fn hold_after(score: &Score, focus_idx: usize, scroll: bool) -> (r: u64)
    requires
        focus_idx < score.timeline@.len(),
    ensures
        r == hold_after_spec(*score, focus_idx as int, scroll),
{
    let n = score.timeline.len();
    let next: usize = focus_idx + 1;
    let start: usize = if scroll && next < n {
        next + 1
    } else if scroll {
        n
    } else {
        next
    };
    if start < n {
        if let Step::Wait { duration_ms } = &score.timeline[start] {
            return *duration_ms;
        }
    }
    if scroll {
        SCROLL_HOLD_MS
    } else {
        DEFAULT_HOLD_MS
    }
}

/// The rectangle `(x, y, w, h)` the terminal (`main`) gets for a placement on
/// a `w`×`h` canvas.
pub open spec fn main_rect(p: Placement, w: u32, h: u32) -> (u32, u32, u32, u32) {
    match p {
        Placement::Replace => (0, 0, w, h),
        Placement::SplitHorizontal => (0, 0, w / 2, h),
        Placement::SplitVertical => (0, 0, w, h / 2),
    }
}

/// The rectangle the revealed pane gets for a placement.
pub open spec fn browser_rect(p: Placement, w: u32, h: u32) -> (u32, u32, u32, u32) {
    match p {
        Placement::Replace => (0, 0, w, h),
        Placement::SplitHorizontal => (w / 2, 0, (w - w / 2) as u32, h),
        Placement::SplitVertical => (0, h / 2, w, (h - h / 2) as u32),
    }
}

/// `q` is `p` moved to the rectangle `r`, everything else kept.
pub open spec fn moved(q: Pane, p: Pane, r: (u32, u32, u32, u32)) -> bool {
    &&& q.x == r.0 && q.y == r.1 && q.width == r.2 && q.height == r.3
    &&& q.id == p.id && q.kind == p.kind && q.font_family == p.font_family
    &&& q.font_size == p.font_size && q.url == p.url && q.theme == p.theme
    &&& q.ignore_speed == p.ignore_speed
}

fn first_index(panes: &Vec<Pane>, id: &str) -> (r: Option<usize>)
    ensures
        r.is_some() <==> first_pane_index(panes@, id@).is_some(),
        r.is_some() ==> first_pane_index(panes@, id@) == Some(r.unwrap() as int) && r.unwrap()
            < panes@.len(),
{
    let want = chars_of(id);
    let mut i: usize = 0;
    while i < panes.len()
        invariant
            0 <= i <= panes@.len(),
            want@ == id@,
            forall|j: int| 0 <= j < i ==> (#[trigger] panes@[j]).id@ != id@,
        decreases panes@.len() - i,
    {
        let have = chars_of(panes[i].id.as_str());
        if seq_eq(&have, &want) {
            proof {
                reveal(first_pane_index);
                let k = choose|k: int|
                    0 <= k < panes@.len() && panes@[k].id@ == id@ && forall|j: int|
                        0 <= j < k ==> (#[trigger] panes@[j]).id@ != id@;
                assert(panes@[i as int].id@ == id@);
                if k < i {
                } else if k > i {
                }
            }
            return Some(i);
        }
        i += 1;
    }
    proof {
        reveal(first_pane_index);
    }
    None
}

fn move_pane(panes: &mut Vec<Pane>, i: usize, r: (u32, u32, u32, u32))
    requires
        i < old(panes)@.len(),
    ensures
        final(panes)@.len() == old(panes)@.len(),
        moved(final(panes)@[i as int], old(panes)@[i as int], r),
        forall|j: int| 0 <= j < old(panes)@.len() && j != i ==> final(panes)@[j] == old(panes)@[j],
{
    let mut p = panes.remove(i);
    p.x = r.0;
    p.y = r.1;
    p.width = r.2;
    p.height = r.3;
    panes.insert(i, p);
}

/// Place the revealed pane `browser_id` (and the terminal `main`) on the canvas:
/// full screen, or the terminal on the left/top half and the page on the
/// other half. When both ids name one pane, the page's rectangle wins.
pub fn apply_placement(layout: &mut Layout, browser_id: &str, placement: Placement)
    ensures
        final(layout).width == old(layout).width,
        final(layout).height == old(layout).height,
        final(layout).fps == old(layout).fps,
        final(layout).background == old(layout).background,
        final(layout).font_family == old(layout).font_family,
        final(layout).font_size == old(layout).font_size,
        final(layout).panes@.len() == old(layout).panes@.len(),
        forall|j: int|
            0 <= j < old(layout).panes@.len() ==> {
                let p = old(layout).panes@[j];
                let q = #[trigger] final(layout).panes@[j];
                if first_pane_index(old(layout).panes@, browser_id@) == Some(j) {
                    moved(q, p, browser_rect(placement, old(layout).width, old(layout).height))
                } else if first_pane_index(old(layout).panes@, "main"@) == Some(j) {
                    moved(q, p, main_rect(placement, old(layout).width, old(layout).height))
                } else {
                    q == p
                }
            },
{
    let w = layout.width;
    let h = layout.height;
    let main_idx = first_index(&layout.panes, "main");
    let browser_idx = first_index(&layout.panes, browser_id);
    let mr: (u32, u32, u32, u32) = match placement {
        Placement::Replace => (0, 0, w, h),
        Placement::SplitHorizontal => (0, 0, w / 2, h),
        Placement::SplitVertical => (0, 0, w, h / 2),
    };
    let br: (u32, u32, u32, u32) = match placement {
        Placement::Replace => (0, 0, w, h),
        Placement::SplitHorizontal => (w / 2, 0, w - w / 2, h),
        Placement::SplitVertical => (0, h / 2, w, h - h / 2),
    };
    let ghost old_panes = layout.panes@;
    if let Some(i) = main_idx {
        move_pane(&mut layout.panes, i, mr);
    }
    let ghost mid = layout.panes@;
    if let Some(i) = browser_idx {
        move_pane(&mut layout.panes, i, br);
    }
    proof {
        let bi = first_pane_index(old_panes, browser_id@);
        let mi = first_pane_index(old_panes, "main"@);
        assert forall|j: int| 0 <= j < old_panes.len() implies {
            let p = old_panes[j];
            let q = #[trigger] layout.panes@[j];
            if bi == Some(j) {
                moved(q, p, browser_rect(placement, w, h))
            } else if mi == Some(j) {
                moved(q, p, main_rect(placement, w, h))
            } else {
                q == p
            }
        } by {
            let is_main = main_idx.is_some() && main_idx.unwrap() as int == j;
            let is_browser = browser_idx.is_some() && browser_idx.unwrap() as int == j;
            assert(is_main <==> mi == Some(j));
            assert(is_browser <==> bi == Some(j));
            if is_main {
                assert(moved(mid[j], old_panes[j], mr));
            } else {
                assert(mid[j] == old_panes[j]);
            }
            if is_browser {
                assert(moved(layout.panes@[j], mid[j], br));
            } else {
                assert(layout.panes@[j] == mid[j]);
            }
        }
    }
}

/// A placement reads back as itself: the page's rectangle after
/// `apply_placement` is detected by `detect_placement` as the placement that
/// was applied (on a canvas at least 2 pixels each way; on a narrower one a
/// split page fills it and reads as full screen).
pub proof fn lemma_placement_round_trip(q: Pane, p: Pane, placement: Placement, w: u32, h: u32)
    requires
        w >= 2,
        h >= 2,
        moved(q, p, browser_rect(placement, w, h)),
    ensures
        placement_of(q, w, h) == placement,
{
}

/// Whether a step scrolls the pane `pane_id`.
pub open spec fn scrolls(s: Step, pane_id: Seq<char>) -> bool {
    s matches Step::Scroll { pane, .. } && names(pane, pane_id)
}

/// How many steps of `t` from index `i` on the editor replaces: the scrolls of
/// `pane_id` right there, then one wait if one follows them.
pub open spec fn tail_len(t: Seq<Step>, i: int, pane_id: Seq<char>) -> int
    decreases t.len() - i,
{
    if i < 0 || i >= t.len() {
        0
    } else if scrolls(t[i], pane_id) {
        1 + tail_len(t, i + 1, pane_id)
    } else if t[i] is Wait {
        1
    } else {
        0
    }
}

proof fn lemma_tail_len(t: Seq<Step>, i: int, pane_id: Seq<char>)
    requires
        0 <= i <= t.len(),
    ensures
        0 <= tail_len(t, i, pane_id) <= t.len() - i,
    decreases t.len() - i,
{
    if i < t.len() && scrolls(t[i], pane_id) {
        lemma_tail_len(t, i + 1, pane_id);
    }
}

/// The steps that follow a reveal of `pane_id` with the given behaviour: a
/// scroll of the pane for `hold_ms` when it scrolls, then a wait of `hold_ms`.
pub open spec fn tail_ok(new: Seq<Step>, pane_id: Seq<char>, scroll: bool, hold_ms: u64) -> bool {
    &&& new.len() == if scroll {
        2int
    } else {
        1int
    }
    &&& scroll ==> (new[0] matches Step::Scroll { direction, velocity, duration_ms, pane }
        && direction == ScrollDirection::Down && velocity == Velocity::Constant && duration_ms
        == hold_ms && names(pane, pane_id))
    &&& new.last() matches Step::Wait { duration_ms } && duration_ms == hold_ms
}

/// Replace what follows the reveal at `focus_idx` (its scrolls of `pane_id`
/// and one wait after them) with the steps of the chosen behaviour.
pub fn update_reveal_tail(timeline: &mut Vec<Step>, focus_idx: usize, pane_id: &str, scroll: bool, hold_ms: u64)
    requires
        focus_idx < old(timeline)@.len(),
    ensures
        ({
            let t = old(timeline)@;
            let i = focus_idx + 1;
            let n = tail_len(t, i, pane_id@);
            let k: int = if scroll {
                2
            } else {
                1
            };
            &&& final(timeline)@.len() == t.len() - n + k
            &&& final(timeline)@.subrange(0, i) == t.subrange(0, i)
            &&& tail_ok(final(timeline)@.subrange(i, i + k), pane_id@, scroll, hold_ms)
            &&& final(timeline)@.subrange(i + k, final(timeline)@.len() as int) == t.subrange(
                i + n,
                t.len() as int,
            )
        }),
{
    let ghost t = timeline@;
    let n0 = timeline.len();
    let i: usize = focus_idx + 1;
    proof {
        lemma_tail_len(t, i as int, pane_id@);
    }
    let ghost mut removed: int = 0;
    let mut done = false;
    while i < timeline.len() && !done
        invariant
            i == focus_idx + 1,
            0 <= removed,
            i + removed <= t.len(),
            timeline@ == t.subrange(0, i as int) + t.subrange(i + removed, t.len() as int),
            done ==> removed == tail_len(t, i as int, pane_id@),
            !done ==> tail_len(t, i as int, pane_id@) == removed + tail_len(
                t,
                i + removed,
                pane_id@,
            ),
        decreases timeline@.len(), if done {
            0int
        } else {
            1int
        },
    {
        let ghost before = timeline@;
        assert(timeline@[i as int] == t[i + removed]);
        let action: u8 = match &timeline[i] {
            Step::Scroll { pane, .. } => if is_named(pane, pane_id) {
                0
            } else {
                2
            },
            Step::Wait { .. } => 1,
            _ => 2,
        };
        if action == 0 {
            timeline.remove(i);
            proof {
                assert(timeline@ =~= t.subrange(0, i as int) + t.subrange(i + removed + 1, t.len() as int));
                removed = removed + 1;
            }
        } else if action == 1 {
            timeline.remove(i);
            proof {
                assert(timeline@ =~= t.subrange(0, i as int) + t.subrange(i + removed + 1, t.len() as int));
                removed = removed + 1;
            }
            done = true;
        } else {
            done = true;
        }
    }
    proof {
        if !done {
            assert(i + removed == t.len());
        }
        assert(removed == tail_len(t, i as int, pane_id@));
    }
    let mut at: usize = i;
    assert(i <= timeline@.len());
    if scroll {
        timeline.insert(
            at,
            Step::Scroll {
                direction: ScrollDirection::Down,
                velocity: Velocity::Constant,
                duration_ms: hold_ms,
                pane: Some(pane_id.to_string()),
            },
        );
        let m1 = timeline.len();
        assert(at < m1);
        at += 1;
    }
    let m = timeline.len();
    assert(at <= m);
    timeline.insert(at, Step::Wait { duration_ms: hold_ms });
    proof {
        let k: int = if scroll {
            2
        } else {
            1
        };
        let f = timeline@;
        assert(f.subrange(0, i as int) =~= t.subrange(0, i as int));
        assert(f.subrange(i + k, f.len() as int) =~= t.subrange(i + removed, t.len() as int));
    }
}

/// The source a revealed pane comes from: the pane's id up to its `-r` suffix
/// (`pdf-r1` comes from `pdf`).
pub open spec fn pane_stem(pane_id: Seq<char>) -> Seq<char> {
    before_first(pane_id, seq!['-', 'r'])
}

/// `q` is `p` pointed at `url`.
pub open spec fn pane_retargeted(q: Pane, p: Pane, url: Seq<char>) -> bool {
    &&& q.x == p.x && q.y == p.y && q.width == p.width && q.height == p.height
    &&& q.id == p.id && q.kind == p.kind && q.font_family == p.font_family
    &&& q.font_size == p.font_size && names(q.url, url) && q.theme == p.theme
    &&& q.ignore_speed == p.ignore_speed
}

/// Point the pane `pane_id` at `url`, and every source it comes from (the
/// source with its id, or its stem) too.
pub fn sync_browser_url(score: &mut Score, pane_id: &str, url: &str)
    ensures
        final(score).demo == old(score).demo,
        final(score).timeline == old(score).timeline,
        final(score).layout.width == old(score).layout.width,
        final(score).layout.height == old(score).layout.height,
        final(score).layout.panes@.len() == old(score).layout.panes@.len(),
        forall|j: int|
            0 <= j < old(score).layout.panes@.len() ==> if first_pane_index(
                old(score).layout.panes@,
                pane_id@,
            ) == Some(j) {
                pane_retargeted(
                    #[trigger] final(score).layout.panes@[j],
                    old(score).layout.panes@[j],
                    url@,
                )
            } else {
                final(score).layout.panes@[j] == old(score).layout.panes@[j]
            },
        final(score).sources@.len() == old(score).sources@.len(),
        forall|j: int|
            0 <= j < old(score).sources@.len() ==> {
                let s = old(score).sources@[j];
                let q = #[trigger] final(score).sources@[j];
                if s.id@ == pane_id@ || s.id@ == pane_stem(pane_id@) {
                    q.id == s.id && q.kind == s.kind && q.theme == s.theme && names(q.url, url@)
                } else {
                    q == s
                }
            },
{
    let ghost old_panes = score.layout.panes@;
    match first_index(&score.layout.panes, pane_id) {
        Some(i) => {
            let mut p = score.layout.panes.remove(i);
            p.url = Some(url.to_string());
            score.layout.panes.insert(i, p);
            assert forall|j: int| 0 <= j < old_panes.len() && j != i implies score.layout.panes@[j]
                == old_panes[j] by {}
            assert(pane_retargeted(score.layout.panes@[i as int], old_panes[i as int], url@));
        },
        None => {
            assert(score.layout.panes@ == old_panes);
        },
    }
    retarget_sources(&mut score.sources, pane_id, url);
}

/// Point every source that a pane `pane_id` comes from at `url`.
fn retarget_sources(sources: &mut Vec<Source>, pane_id: &str, url: &str)
    ensures
        final(sources)@.len() == old(sources)@.len(),
        forall|j: int|
            0 <= j < old(sources)@.len() ==> {
                let s = old(sources)@[j];
                let q = #[trigger] final(sources)@[j];
                if s.id@ == pane_id@ || s.id@ == pane_stem(pane_id@) {
                    q.id == s.id && q.kind == s.kind && q.theme == s.theme && names(q.url, url@)
                } else {
                    q == s
                }
            },
{
    let pv = chars_of(pane_id);
    let sep: Vec<char> = vec!['-', 'r'];
    let end = before_first_end(&pv, &sep);
    let stem = slice_of(&pv, 0, end);
    assert(sep@ == seq!['-', 'r']);
    let ghost old_sources = sources@;
    let mut k: usize = 0;
    while k < sources.len()
        invariant
            0 <= k <= sources@.len(),
            sources@.len() == old_sources.len(),
            pv@ == pane_id@,
            stem@ == pane_stem(pane_id@),
            forall|j: int| k <= j < old_sources.len() ==> #[trigger] sources@[j] == old_sources[j],
            forall|j: int|
                0 <= j < k ==> {
                    let s = old_sources[j];
                    let q = #[trigger] sources@[j];
                    if s.id@ == pane_id@ || s.id@ == pane_stem(pane_id@) {
                        q.id == s.id && q.kind == s.kind && q.theme == s.theme && names(q.url, url@)
                    } else {
                        q == s
                    }
                },
        decreases sources@.len() - k,
    {
        let sid = chars_of(sources[k].id.as_str());
        if seq_eq(&sid, &pv) || seq_eq(&sid, &stem) {
            let ghost before = sources@;
            let mut s = sources.remove(k);
            s.url = Some(url.to_string());
            sources.insert(k, s);
            assert forall|j: int| 0 <= j < before.len() && j != k implies sources@[j] == before[j] by {}
        }
        k += 1;
    }
}


/// The pane a reveal step shows: for a `focus` step naming a pane, that pane's
/// id — an error when the layout has no such pane; `None` for any other step.
pub fn reveal_target(score: &Score, focus_idx: usize) -> (r: Result<Option<String>, Error>)
    requires
        focus_idx < score.timeline@.len(),
    ensures
        match score.timeline@[focus_idx as int] {
            Step::Focus { pane: Some(id) } => match r {
                Ok(Some(t)) => t@ == id@ && first_pane_index(score.layout.panes@, id@).is_some(),
                Ok(None) => false,
                Err(e) => first_pane_index(score.layout.panes@, id@).is_none() && e.export_text()
                    == Some("pane '"@ + id@ + "' not found in layout"@),
            },
            _ => r == Ok::<Option<String>, Error>(None),
        },
{
    match &score.timeline[focus_idx] {
        Step::Focus { pane: Some(id) } => match score.pane(id.as_str()) {
            Some(_) => Ok(Some(id.clone())),
            None => {
                let mut m = String::new();
                push_str(&mut m, "pane '");
                push_str(&mut m, id.as_str());
                push_str(&mut m, "' not found in layout");
                Err(Error::Export(m))
            },
        },
        _ => Ok(None),
    }
}
} // verus!
