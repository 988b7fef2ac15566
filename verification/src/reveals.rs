//! Reveals requested during a capture: turning one into its recorded event,
//! its one-line summary, firing the queued ones at shutdown, and matching the
//! `--when` cue that arms a deferred one.

use vstd::prelude::*;
use crate::text::{debug_quoted, debug_str};
use crate::model::{reveal_pane_view, Orientation, RawEvent, RevealPane};
use crate::text::{chars_of, contains, contains_seq, join, push_str, slice_of, starts_with};

verus! {

broadcast use vstd::string::group_string_axioms;

/// A resolved reveal: the one or two panes to show and how they are arranged,
/// plus hold and scroll. By the time a `Reveal` is recorded it fires now.
pub struct Reveal {
    pub panes: Vec<RevealPane>,
    pub orientation: Orientation,
    pub hold_ms: Option<u64>,
    pub scroll: bool,
}

/// The views of a list of panes.
pub open spec fn panes_view(ps: Seq<RevealPane>) -> Seq<(Seq<char>, Option<Seq<char>>, Option<Seq<char>>)> {
    ps.map_values(|p: RevealPane| reveal_pane_view(p))
}

/// `e` is the event recording `r` at time `t_ms`.
pub open spec fn is_reveal_event(e: RawEvent, r: Reveal, t_ms: u64) -> bool {
    match e {
        RawEvent::Reveal { t_ms: t, panes, orientation, hold_ms, scroll } => {
            &&& t == t_ms
            &&& panes_view(panes@) == panes_view(r.panes@)
            &&& orientation == r.orientation
            &&& hold_ms == r.hold_ms
            &&& scroll == r.scroll
        },
        _ => false,
    }
}

/// How `{:?}` renders an orientation.
pub open spec fn orientation_name(o: Orientation) -> Seq<char> {
    match o {
        Orientation::Horizontal => "Horizontal"@,
        Orientation::Vertical => "Vertical"@,
    }
}

/// The debug-log summary of a reveal: its pane ids as a quoted list, then the
/// orientation in parentheses.
pub open spec fn reveal_summary(r: Reveal) -> Seq<char> {
    "["@ + join(r.panes@.map_values(|p: RevealPane| debug_quoted(p.id@)), ", "@) + "] ("@
        + orientation_name(r.orientation) + ")"@
}

impl Reveal {
    /// A copy of the panes.
    fn copy_panes(&self) -> (r: Vec<RevealPane>)
        ensures
            panes_view(r@) == panes_view(self.panes@),
    {
        let mut r: Vec<RevealPane> = Vec::new();
        let mut k: usize = 0;
        while k < self.panes.len()
            invariant
                0 <= k <= self.panes@.len(),
                r@.len() == k,
                panes_view(r@) == panes_view(self.panes@.take(k as int)),
            decreases self.panes@.len() - k,
        {
            let ghost prev = r@;
            let c = self.panes[k].copy();
            r.push(c);
            assert forall|i: int| 0 <= i < k + 1 implies #[trigger] panes_view(r@)[i] == panes_view(
                self.panes@.take(k + 1),
            )[i] by {
                if i < k {
                    assert(r@[i] == prev[i]);
                    assert(self.panes@.take(k + 1)[i] == self.panes@.take(k as int)[i]);
                    assert(panes_view(prev)[i] == panes_view(self.panes@.take(k as int))[i]);
                } else {
                    assert(r@[i] == c);
                    assert(self.panes@.take(k + 1)[i] == self.panes@[k as int]);
                }
            }
            assert(panes_view(r@) =~= panes_view(self.panes@.take(k + 1)));
            k += 1;
        }
        assert(self.panes@.take(k as int) =~= self.panes@);
        r
    }

    /// Turn this reveal into the recorded event at time `t_ms`.
    pub fn to_event(&self, t_ms: u64) -> (e: RawEvent)
        ensures
            is_reveal_event(e, *self, t_ms),
    {
        RawEvent::Reveal {
            t_ms,
            panes: self.copy_panes(),
            orientation: self.orientation,
            hold_ms: self.hold_ms,
            scroll: self.scroll,
        }
    }

    /// One-line summary for the debug log.
    pub fn summary(&self) -> (r: String)
        ensures
            r@ == reveal_summary(*self),
    {
        let ghost ids = self.panes@.map_values(|p: RevealPane| debug_quoted(p.id@));
        let mut r = String::new();
        push_str(&mut r, "[");
        let ghost head = r@;
        let mut k: usize = 0;
        while k < self.panes.len()
            invariant
                0 <= k <= self.panes@.len(),
                ids == self.panes@.map_values(|p: RevealPane| debug_quoted(p.id@)),
                r@ == head + join(ids.take(k as int), ", "@),
            decreases self.panes@.len() - k,
        {
            if k > 0 {
                push_str(&mut r, ", ");
            }
            let q = debug_str(self.panes[k].id.as_str());
            push_str(&mut r, q.as_str());
            proof {
                let t = ids.take(k + 1);
                assert(t.drop_last() =~= ids.take(k as int));
                if k == 0 {
                    assert(ids.take(0) =~= Seq::<Seq<char>>::empty());
                }
            }
            k += 1;
        }
        assert(ids.take(k as int) =~= ids);
        push_str(&mut r, "] (");
        match self.orientation {
            Orientation::Horizontal => push_str(&mut r, "Horizontal"),
            Orientation::Vertical => push_str(&mut r, "Vertical"),
        }
        push_str(&mut r, ")");
        r
    }
}

/// The views of a list of strings.
pub open spec fn strs(v: Seq<String>) -> Seq<Seq<char>> {
    v.map_values(|x: String| x@)
}

/// The summaries of a list of reveals.
pub open spec fn summaries(rs: Seq<Reveal>) -> Seq<Seq<char>> {
    rs.map_values(|r: Reveal| reveal_summary(r))
}

/// The cues of a list of armed `--when` reveals.
pub open spec fn cues(ps: Seq<(Reveal, String)>) -> Seq<Seq<char>> {
    ps.map_values(|p: (Reveal, String)| p.1@)
}

/// What the shutdown drain resolved from the pending queues: the summaries of
/// the `--after` reveals it fired, and the `--when` cues that never matched.
pub struct DrainSummary {
    pub after_summaries: Vec<String>,
    pub when_unmatched: Vec<String>,
}

/// Fire every reveal still queued at shutdown, `--after` ones first, each as an
/// event at time `now`, so none is silently dropped; both queues end empty.
pub fn drain_remaining_reveals(
    after_opens: &mut Vec<Reveal>,
    pending_opens: &mut Vec<(Reveal, String)>,
    events: &mut Vec<RawEvent>,
    now: u64,
) -> (s: DrainSummary)
    ensures
        final(after_opens)@.len() == 0,
        final(pending_opens)@.len() == 0,
        final(events)@.len() == old(events)@.len() + old(after_opens)@.len() + old(pending_opens)@.len(),
        forall|i: int| 0 <= i < old(events)@.len() ==> final(events)@[i] == old(events)@[i],
        forall|i: int|
            0 <= i < old(after_opens)@.len() ==> is_reveal_event(
                #[trigger] final(events)@[old(events)@.len() + i],
                old(after_opens)@[i],
                now,
            ),
        forall|i: int|
            0 <= i < old(pending_opens)@.len() ==> is_reveal_event(
                #[trigger] final(events)@[old(events)@.len() + old(after_opens)@.len() + i],
                old(pending_opens)@[i].0,
                now,
            ),
        strs(s.after_summaries@) == summaries(old(after_opens)@),
        strs(s.when_unmatched@) == cues(old(pending_opens)@),
{
    let ghost e0 = events@;
    let mut after_summaries: Vec<String> = Vec::new();
    let mut k: usize = 0;
    while k < after_opens.len()
        invariant
            0 <= k <= after_opens@.len(),
            after_opens@ == old(after_opens)@,
            events@.len() == e0.len() + k,
            e0 == old(events)@,
            forall|i: int| 0 <= i < e0.len() ==> events@[i] == e0[i],
            forall|i: int|
                0 <= i < k ==> is_reveal_event(#[trigger] events@[e0.len() + i], after_opens@[i], now),
            after_summaries@.len() == k,
            strs(after_summaries@) == summaries(after_opens@.take(k as int)),
        decreases after_opens@.len() - k,
    {
        let r = &after_opens[k];
        let ghost prev = after_summaries@;
        let sm = r.summary();
        after_summaries.push(sm);
        assert forall|i: int| 0 <= i < k + 1 implies #[trigger] strs(after_summaries@)[i] == summaries(
            after_opens@.take(k + 1),
        )[i] by {
            if i < k {
                assert(after_summaries@[i] == prev[i]);
                assert(after_opens@.take(k + 1)[i] == after_opens@.take(k as int)[i]);
                assert(strs(prev)[i] == summaries(after_opens@.take(k as int))[i]);
            } else {
                assert(after_summaries@[i] == sm);
                assert(after_opens@.take(k + 1)[i] == after_opens@[k as int]);
            }
        }
        events.push(r.to_event(now));
        assert(strs(after_summaries@) =~= summaries(after_opens@.take(k + 1)));
        k += 1;
    }
    assert(after_opens@.take(k as int) =~= after_opens@);
    let n_after: usize = after_opens.len();
    let mut when_unmatched: Vec<String> = Vec::new();
    let mut j: usize = 0;
    while j < pending_opens.len()
        invariant
            0 <= j <= pending_opens@.len(),
            pending_opens@ == old(pending_opens)@,
            n_after == old(after_opens)@.len(),
            e0 == old(events)@,
            events@.len() == e0.len() + n_after + j,
            forall|i: int| 0 <= i < e0.len() ==> events@[i] == e0[i],
            forall|i: int|
                0 <= i < n_after ==> is_reveal_event(
                    #[trigger] events@[e0.len() + i],
                    old(after_opens)@[i],
                    now,
                ),
            forall|i: int|
                0 <= i < j ==> is_reveal_event(
                    #[trigger] events@[e0.len() + n_after + i],
                    pending_opens@[i].0,
                    now,
                ),
            when_unmatched@.len() == j,
            strs(when_unmatched@) == cues(pending_opens@.take(j as int)),
        decreases pending_opens@.len() - j,
    {
        let (r, pat) = &pending_opens[j];
        let ghost prev = when_unmatched@;
        let cue = pat.clone();
        when_unmatched.push(cue);
        assert forall|i: int| 0 <= i < j + 1 implies #[trigger] strs(when_unmatched@)[i] == cues(
            pending_opens@.take(j + 1),
        )[i] by {
            if i < j {
                assert(when_unmatched@[i] == prev[i]);
                assert(pending_opens@.take(j + 1)[i] == pending_opens@.take(j as int)[i]);
                assert(strs(prev)[i] == cues(pending_opens@.take(j as int))[i]);
            } else {
                assert(when_unmatched@[i] == cue);
                assert(pending_opens@.take(j + 1)[i] == pending_opens@[j as int]);
            }
        }
        events.push(r.to_event(now));
        assert(strs(when_unmatched@) =~= cues(pending_opens@.take(j + 1)));
        j += 1;
    }
    assert(pending_opens@.take(j as int) =~= pending_opens@);
    *after_opens = Vec::new();
    *pending_opens = Vec::new();
    DrainSummary { after_summaries, when_unmatched }
}

/// What searching `haystack` for the regular expression `pattern` gives:
/// `None` when the pattern does not compile, else whether it matches
/// somewhere (`regex::Regex::new`, then `Regex::is_match`).
pub uninterp spec fn regex_search(pattern: Seq<char>, haystack: Seq<char>) -> Option<bool>;

/// Compile `pattern` with `regex::Regex::new` and, when it compiles, report
/// whether it matches somewhere in `haystack` (`Regex::is_match`).
#[verifier::external_body]
fn regex_find(pattern: &str, haystack: &str) -> (r: Option<bool>)
    ensures
        r == regex_search(pattern@, haystack@),
{
    match regex::Regex::new(pattern) {
        Ok(re) => Some(re.is_match(haystack)),
        Err(_) => None,
    }
}

/// Whether recent output matches a `--when` cue: a `re:` prefix makes the
/// rest a regular expression (one that doesn't compile never matches);
/// otherwise the cue is a plain substring.
pub open spec fn cue_matches_spec(recent: Seq<char>, pattern: Seq<char>) -> bool {
    if "re:"@.is_prefix_of(pattern) {
        regex_search(pattern.skip(3), recent) == Some(true)
    } else {
        contains_seq(recent, pattern)
    }
}

/// Does the recent output match a `--when` cue?
pub fn cue_matches(recent: &str, pattern: &str) -> (r: bool)
    ensures
        r == cue_matches_spec(recent@, pattern@),
{
    let pv = chars_of(pattern);
    let re = chars_of("re:");
    proof {
        reveal_strlit("re:");
    }
    if starts_with(&pv, &re) {
        let rx = slice_of(&pv, 3, pv.len());
        let rx_s = crate::text::string_of(&rx);
        assert(rx@ =~= pattern@.skip(3));
        match regex_find(rx_s.as_str(), recent) {
            Some(m) => m,
            None => false,
        }
    } else {
        let hv = chars_of(recent);
        contains(&hv, &pv)
    }
}

} // verus!
