//! The bookkeeping of a live capture: what the recorder does with each control
//! command (`demo focus` / `demo open` / `demo stop`), with each chunk of
//! terminal output, and when an `--after` command has finished — the decisions
//! of the capture loop, which itself runs in the front end.

use vstd::prelude::*;
use crate::model::{opt_str, Orientation, RawEvent, RawMacro, RevealPane};
use crate::recording::{stop_cutoff_ms, stop_cutoff_spec};
use crate::reveals::{cue_matches, cue_matches_spec, is_reveal_event, panes_view, Reveal};
use crate::text::{
    chars_of, find_from, occurs_at, push_chars, push_str, slice_of, str_eq, string_of, utf8_width,
    utf8_width_exec,
};

verus! {

broadcast use vstd::string::group_string_axioms;

// ---------------------------------------------------------------------------
// Control messages
// ---------------------------------------------------------------------------

/// A pane of a `reveal` control message, as read: each field present only when
/// the message held a string there.
#[derive(Debug, Clone)]
pub struct PaneMessage {
    pub id: Option<String>,
    pub url: Option<String>,
    pub theme: Option<String>,
}

/// The fields of a control-file line the recorder reads, as read (a field of
/// another type than expected reads as absent).
#[derive(Debug, Clone)]
pub struct ControlMessage {
    pub cmd: Option<String>,
    /// The `panes` array, when there is one.
    pub panes: Option<Vec<PaneMessage>>,
    pub orientation: Option<String>,
    pub hold: Option<u64>,
    pub scroll: Option<bool>,
    pub when: Option<String>,
    pub after: Option<bool>,
}

/// A string field that is present and not empty.
pub open spec fn nonempty_str(o: Option<String>) -> Option<Seq<char>> {
    match o {
        Some(s) => if s@.len() > 0 {
            Some(s@)
        } else {
            None
        },
        None => None,
    }
}

/// The reveal pane a message pane stands for: an absent or empty id is the
/// terminal (`main`); an empty URL or theme is none.
pub open spec fn message_pane(p: PaneMessage) -> (Seq<char>, Option<Seq<char>>, Option<Seq<char>>) {
    (
        match nonempty_str(p.id) {
            Some(id) => id,
            None => "main"@,
        },
        nonempty_str(p.url),
        nonempty_str(p.theme),
    )
}

/// The panes of a message, as reveal panes.
pub open spec fn message_panes(ps: Seq<PaneMessage>) -> Seq<(Seq<char>, Option<Seq<char>>, Option<Seq<char>>)> {
    ps.map_values(|p: PaneMessage| message_pane(p))
}

/// The copy of a string field, kept only when not empty.
fn nonempty_copy(o: &Option<String>) -> (r: Option<String>)
    ensures
        opt_str(r) == nonempty_str(*o),
{
    match o {
        Some(s) => {
            if s.as_str().unicode_len() > 0 {
                Some(s.clone())
            } else {
                None
            }
        },
        None => None,
    }
}

/// The reveal a `reveal` message asks for: its panes (see `message_pane`),
/// vertical only when it says `vertical`, its hold, and a scroll only when it
/// says so; `None` without a non-empty `panes` array.
pub fn parse_reveal(m: &ControlMessage) -> (r: Option<Reveal>)
    ensures
        match m.panes {
            Some(ps) if ps@.len() > 0 => match r {
                Some(rv) => {
                    &&& panes_view(rv.panes@) == message_panes(ps@)
                    &&& rv.orientation == (if opt_str(m.orientation) == Some("vertical"@) {
                        Orientation::Vertical
                    } else {
                        Orientation::Horizontal
                    })
                    &&& rv.hold_ms == m.hold
                    &&& rv.scroll == (m.scroll == Some(true))
                },
                None => false,
            },
            _ => r.is_none(),
        },
{
    let ps = match &m.panes {
        Some(ps) => ps,
        None => {
            return None;
        },
    };
    if ps.len() == 0 {
        return None;
    }
    let mut panes: Vec<RevealPane> = Vec::new();
    let mut k: usize = 0;
    while k < ps.len()
        invariant
            0 <= k <= ps@.len(),
            panes@.len() == k,
            forall|j: int|
                0 <= j < k ==> crate::model::reveal_pane_view(#[trigger] panes@[j]) == message_pane(ps@[j]),
        decreases ps@.len() - k,
    {
        let p = &ps[k];
        let id = match nonempty_copy(&p.id) {
            Some(s) => s,
            None => {
                let mut s = String::new();
                push_str(&mut s, "main");
                s
            },
        };
        panes.push(RevealPane { id, url: nonempty_copy(&p.url), theme: nonempty_copy(&p.theme) });
        k += 1;
    }
    assert(panes_view(panes@) =~= message_panes(ps@));
    let orientation = match &m.orientation {
        Some(o) => if str_eq(o.as_str(), "vertical") {
            Orientation::Vertical
        } else {
            Orientation::Horizontal
        },
        None => Orientation::Horizontal,
    };
    let scroll = match m.scroll {
        Some(b) => b,
        None => false,
    };
    Some(Reveal { panes, orientation, hold_ms: m.hold, scroll })
}


// ---------------------------------------------------------------------------
// The recorder's state
// ---------------------------------------------------------------------------

/// What the recorder keeps while a capture runs: the events recorded so far,
/// the reveals armed by `--when` (each with its cue) and by `--after`, whether
/// an `--after` command is in flight, and the spans to excise — the one open
/// while a typed control command runs, and the closed ones `(start, end)`.
pub struct CaptureLog {
    pub events: Vec<RawEvent>,
    pub pending: Vec<(Reveal, String)>,
    pub after: Vec<Reveal>,
    pub after_running: bool,
    pub muting: bool,
    pub mute_start: Option<u64>,
    pub mute_spans: Vec<(u64, u64)>,
}

/// How far back a span opened by a `reveal_begin` message starts, when the
/// typed command itself was not seen, so the wizard's first lines go too.
pub const OPEN_BEGIN_BACKDATE_MS: u64 = 800;

/// The spans after closing the open one (if any) at `now`.
pub open spec fn closed_spans(spans: Seq<(u64, u64)>, start: Option<u64>, now: u64) -> Seq<(u64, u64)> {
    match start {
        Some(s) => spans.push((s, now)),
        None => spans,
    }
}

/// What a control message did besides updating the log.
#[derive(Debug, Clone, Copy, PartialEq, Eq, Structural)]
pub struct ControlOutcome {
    /// The message was `stop`.
    pub stop: bool,
    /// The message armed an `--after` reveal (its quiet clock restarts now).
    pub armed_after: bool,
}

/// The `--when` cue of a message: its `when` field when not empty.
pub open spec fn message_cue(m: ControlMessage) -> Option<Seq<char>> {
    nonempty_str(m.when)
}

impl CaptureLog {
    /// An empty log, with nothing muted.
    pub fn new() -> (r: CaptureLog)
        ensures
            r.events@.len() == 0,
            r.pending@.len() == 0,
            r.after@.len() == 0,
            !r.after_running,
            !r.muting,
            r.mute_start.is_none(),
            r.mute_spans@.len() == 0,
    {
        CaptureLog {
            events: Vec::new(),
            pending: Vec::new(),
            after: Vec::new(),
            after_running: false,
            muting: false,
            mute_start: None,
            mute_spans: Vec::new(),
        }
    }

    /// Closes the open excision span (if any) at `now`.
    fn close_span(&mut self, now: u64)
        ensures
            final(self).mute_start.is_none(),
            final(self).mute_spans@ == closed_spans(old(self).mute_spans@, old(self).mute_start, now),
            final(self).events == old(self).events,
            final(self).pending == old(self).pending,
            final(self).after == old(self).after,
            final(self).after_running == old(self).after_running,
            final(self).muting == old(self).muting,
    {
        if let Some(start) = self.mute_start {
            self.mute_spans.push((start, now));
        }
        self.mute_start = None;
    }

    /// A typed control command was seen at the input: mute from now on, and
    /// open a span at the command's first keystroke (or now) unless one is open.
    pub fn begin_command_mute(&mut self, cmd_start: Option<u64>, now: u64)
        ensures
            final(self).muting,
            final(self).mute_start == (match old(self).mute_start {
                Some(s) => Some(s),
                None => Some(
                    match cmd_start {
                        Some(c) => c,
                        None => now,
                    },
                ),
            }),
            final(self).mute_spans == old(self).mute_spans,
            final(self).events == old(self).events,
            final(self).pending == old(self).pending,
            final(self).after == old(self).after,
            final(self).after_running == old(self).after_running,
    {
        self.muting = true;
        if self.mute_start.is_none() {
            self.mute_start = Some(
                match cmd_start {
                    Some(c) => c,
                    None => now,
                },
            );
        }
    }

    /// Applies one control message at time `now`: `reveal_begin` mutes (opening
    /// a span backdated by `OPEN_BEGIN_BACKDATE_MS` unless one is open); `stop`
    /// unmutes and stops; `reveal_cancel` unmutes and closes the span; `reveal`
    /// does the same and then arms its reveal on its cue, or after the current
    /// command, or records it now; anything else is ignored.
    pub fn apply_control(&mut self, m: &ControlMessage, now: u64) -> (r: ControlOutcome)
        ensures
            ({
                let cmd = opt_str(m.cmd);
                if cmd == Some("reveal_begin"@) {
                    &&& r == ControlOutcome { stop: false, armed_after: false }
                    &&& final(self).muting
                    &&& final(self).mute_start == (match old(self).mute_start {
                        Some(s) => Some(s),
                        None => Some(
                            (if now >= OPEN_BEGIN_BACKDATE_MS {
                                now - OPEN_BEGIN_BACKDATE_MS
                            } else {
                                0
                            }) as u64,
                        ),
                    })
                    &&& final(self).mute_spans == old(self).mute_spans
                    &&& final(self).events == old(self).events
                    &&& final(self).pending == old(self).pending
                    &&& final(self).after == old(self).after
                    &&& final(self).after_running == old(self).after_running
                } else if cmd == Some("stop"@) {
                    &&& r == ControlOutcome { stop: true, armed_after: false }
                    &&& !final(self).muting
                    &&& final(self).mute_start == old(self).mute_start
                    &&& final(self).mute_spans == old(self).mute_spans
                    &&& final(self).events == old(self).events
                    &&& final(self).pending == old(self).pending
                    &&& final(self).after == old(self).after
                    &&& final(self).after_running == old(self).after_running
                } else if cmd == Some("reveal_cancel"@) || cmd == Some("reveal"@) {
                    &&& !final(self).muting
                    &&& final(self).mute_start.is_none()
                    &&& final(self).mute_spans@ == closed_spans(
                        old(self).mute_spans@,
                        old(self).mute_start,
                        now,
                    )
                    &&& !r.stop
                    &&& (if cmd == Some("reveal"@) && (match m.panes {
                        Some(ps) => ps@.len() > 0,
                        None => false,
                    }) {
                        let rv = *final(self);
                        if message_cue(*m).is_some() {
                            &&& !r.armed_after
                            &&& rv.events == old(self).events
                            &&& rv.after == old(self).after
                            &&& rv.after_running == old(self).after_running
                            &&& rv.pending@.len() == old(self).pending@.len() + 1
                            &&& rv.pending@.take(old(self).pending@.len() as int) == old(self).pending@
                            &&& Some(rv.pending@.last().1@) == message_cue(*m)
                            &&& panes_view(rv.pending@.last().0.panes@) == message_panes(m.panes->0@)
                        } else if m.after == Some(true) {
                            &&& r.armed_after
                            &&& rv.events == old(self).events
                            &&& rv.pending == old(self).pending
                            &&& rv.after_running
                            &&& rv.after@.len() == old(self).after@.len() + 1
                            &&& rv.after@.take(old(self).after@.len() as int) == old(self).after@
                            &&& panes_view(rv.after@.last().panes@) == message_panes(m.panes->0@)
                        } else {
                            &&& !r.armed_after
                            &&& rv.pending == old(self).pending
                            &&& rv.after == old(self).after
                            &&& rv.after_running == old(self).after_running
                            &&& rv.events@.len() == old(self).events@.len() + 1
                            &&& rv.events@.take(old(self).events@.len() as int) == old(self).events@
                            &&& match rv.events@.last() {
                                RawEvent::Reveal { t_ms, panes, .. } => t_ms == now && panes_view(
                                    panes@,
                                ) == message_panes(m.panes->0@),
                                _ => false,
                            }
                        }
                    } else {
                        &&& !r.armed_after
                        &&& final(self).events == old(self).events
                        &&& final(self).pending == old(self).pending
                        &&& final(self).after == old(self).after
                        &&& final(self).after_running == old(self).after_running
                    })
                } else {
                    &&& r == ControlOutcome { stop: false, armed_after: false }
                    &&& final(self).muting == old(self).muting
                    &&& final(self).mute_start == old(self).mute_start
                    &&& final(self).mute_spans == old(self).mute_spans
                    &&& final(self).events == old(self).events
                    &&& final(self).pending == old(self).pending
                    &&& final(self).after == old(self).after
                    &&& final(self).after_running == old(self).after_running
                }
            }),
    {
        let none = ControlOutcome { stop: false, armed_after: false };
        let cmd: &str = match &m.cmd {
            Some(c) => c.as_str(),
            None => {
                return none;
            },
        };
        if str_eq(cmd, "reveal_begin") {
            self.muting = true;
            if self.mute_start.is_none() {
                self.mute_start = Some(now.saturating_sub(OPEN_BEGIN_BACKDATE_MS));
            }
            return none;
        }
        if str_eq(cmd, "stop") {
            self.muting = false;
            return ControlOutcome { stop: true, armed_after: false };
        }
        let cancel = str_eq(cmd, "reveal_cancel");
        let reveal = str_eq(cmd, "reveal");
        if !cancel && !reveal {
            return none;
        }
        self.muting = false;
        self.close_span(now);
        if cancel {
            proof {
                reveal_strlit("reveal_cancel");
                reveal_strlit("reveal");
                assert("reveal_cancel"@.len() != "reveal"@.len());
            }
            return none;
        }
        let rv = match parse_reveal(m) {
            Some(rv) => rv,
            None => {
                return none;
            },
        };
        let cue = nonempty_copy(&m.when);
        match cue {
            Some(pat) => {
                self.pending.push((rv, pat));
                none
            },
            None => {
                if m.after == Some(true) {
                    self.after.push(rv);
                    self.after_running = true;
                    ControlOutcome { stop: false, armed_after: true }
                } else {
                    let e = rv.to_event(now);
                    self.events.push(e);
                    none
                }
            },
        }
    }

    /// The `--after` command has finished: record every reveal armed for it at
    /// `now`, in order, and stop tracking it.
    pub fn fire_after(&mut self, now: u64)
        ensures
            !final(self).after_running,
            final(self).after@.len() == 0,
            final(self).events@.len() == old(self).events@.len() + old(self).after@.len(),
            final(self).events@.take(old(self).events@.len() as int) == old(self).events@,
            forall|i: int|
                0 <= i < old(self).after@.len() ==> is_reveal_event(
                    #[trigger] final(self).events@[old(self).events@.len() + i],
                    old(self).after@[i],
                    now,
                ),
            final(self).pending == old(self).pending,
            final(self).muting == old(self).muting,
            final(self).mute_start == old(self).mute_start,
            final(self).mute_spans == old(self).mute_spans,
    {
        let ghost e0 = self.events@;
        let mut k: usize = 0;
        while k < self.after.len()
            invariant
                0 <= k <= self.after@.len(),
                self.after == old(self).after,
                self.pending == old(self).pending,
                self.muting == old(self).muting,
                self.mute_start == old(self).mute_start,
                self.mute_spans == old(self).mute_spans,
                e0 == old(self).events@,
                self.events@.len() == e0.len() + k,
                self.events@.take(e0.len() as int) == e0,
                forall|i: int|
                    0 <= i < k ==> is_reveal_event(
                        #[trigger] self.events@[e0.len() + i],
                        self.after@[i],
                        now,
                    ),
            decreases self.after@.len() - k,
        {
            let e = self.after[k].to_event(now);
            self.events.push(e);
            assert(self.events@.take(e0.len() as int) =~= e0);
            k += 1;
        }
        self.after = Vec::new();
        self.after_running = false;
    }

    /// A control command never reported back (the caller found the mute on for
    /// too long): unmute and close its span at `now`; `false`, with nothing
    /// changed, when nothing is muted.
    pub fn close_stranded_mute(&mut self, now: u64) -> (r: bool)
        ensures
            r == old(self).muting,
            r ==> !final(self).muting && final(self).mute_start.is_none() && final(self).mute_spans@
                == closed_spans(old(self).mute_spans@, old(self).mute_start, now),
            !r ==> final(self).mute_start == old(self).mute_start && final(self).mute_spans
                == old(self).mute_spans && !final(self).muting,
            final(self).events == old(self).events,
            final(self).pending == old(self).pending,
            final(self).after == old(self).after,
            final(self).after_running == old(self).after_running,
    {
        if !self.muting {
            return false;
        }
        self.muting = false;
        self.close_span(now);
        true
    }

    /// The capture stopped at `now`: close a span still open (a wizard cut
    /// short by `demo stop`).
    pub fn finish(&mut self, now: u64)
        ensures
            final(self).mute_start.is_none(),
            final(self).mute_spans@ == closed_spans(old(self).mute_spans@, old(self).mute_start, now),
            final(self).events == old(self).events,
            final(self).pending == old(self).pending,
            final(self).after == old(self).after,
    {
        self.close_span(now);
    }
}

// ---------------------------------------------------------------------------
// The watchdog's tick
// ---------------------------------------------------------------------------

/// An `--after` command counts as finished once its output has been quiet
/// this long.
pub const AFTER_QUIET_MS: u64 = 800;
/// A mute longer than this means a control command never reported back.
pub const MUTE_SAFETY_MS: u64 = 90_000;
/// Recording starts this long after launch even if the readiness marker never
/// arrives (an odd shell), rather than capturing nothing.
pub const READY_FALLBACK_MS: u64 = 4_000;

/// Time elapsed from `since` to `now`, in ms (none when `since` is later).
pub open spec fn elapsed(now: u64, since: u64) -> int {
    if now >= since {
        now - since
    } else {
        0
    }
}

/// What one watchdog tick did.
#[derive(Debug, Clone, Copy, PartialEq, Eq, Structural)]
pub struct TickOutcome {
    /// The `--after` reveals were recorded.
    pub fired_after: bool,
    /// A stranded mute was closed by the safety valve.
    pub valve_closed: bool,
    /// Recording started without the readiness marker.
    pub forced_ready: bool,
    /// The capture has been idle for longer than its idle timeout.
    pub idle_stop: bool,
}

impl CaptureLog {
    /// One tick of the capture's watchdog at `now` (ms since launch): the
    /// `--after` reveals fire once their command's output has been quiet
    /// longer than `AFTER_QUIET_MS` (since `after_last_out`); a mute held
    /// longer than `MUTE_SAFETY_MS` (since `mute_since`) is closed; recording
    /// starts anyway after `READY_FALLBACK_MS` without the readiness marker;
    /// and the capture is to stop when nothing happened for longer than a
    /// non-zero `idle_timeout_ms` (since `last_activity`).
    pub fn watchdog_tick(
        &mut self,
        tap: &mut OutputTap,
        now: u64,
        after_last_out: u64,
        mute_since: u64,
        last_activity: u64,
        idle_timeout_ms: u64,
    ) -> (r: TickOutcome)
        ensures
            r.fired_after == (old(self).after_running && elapsed(now, after_last_out) > AFTER_QUIET_MS),
            r.fired_after ==> {
                &&& !final(self).after_running
                &&& final(self).after@.len() == 0
                &&& final(self).events@.len() == old(self).events@.len() + old(self).after@.len()
                &&& final(self).events@.take(old(self).events@.len() as int) == old(self).events@
                &&& forall|i: int|
                    0 <= i < old(self).after@.len() ==> is_reveal_event(
                        #[trigger] final(self).events@[old(self).events@.len() + i],
                        old(self).after@[i],
                        now,
                    )
            },
            !r.fired_after ==> final(self).events == old(self).events && final(self).after
                == old(self).after && final(self).after_running == old(self).after_running,
            r.valve_closed == (old(self).muting && elapsed(now, mute_since) > MUTE_SAFETY_MS),
            r.valve_closed ==> !final(self).muting && final(self).mute_start.is_none()
                && final(self).mute_spans@ == closed_spans(old(self).mute_spans@, old(self).mute_start, now),
            !r.valve_closed ==> final(self).muting == old(self).muting && final(self).mute_start
                == old(self).mute_start && final(self).mute_spans == old(self).mute_spans,
            final(self).pending == old(self).pending,
            r.forced_ready == (!old(tap).ready && now > READY_FALLBACK_MS),
            final(tap).ready == (old(tap).ready || now > READY_FALLBACK_MS),
            final(tap).pre == old(tap).pre,
            final(tap).recent == old(tap).recent,
            r.idle_stop == (idle_timeout_ms > 0 && elapsed(now, last_activity) > idle_timeout_ms),
    {
        let fired_after = self.after_running && now.saturating_sub(after_last_out) > AFTER_QUIET_MS;
        if fired_after {
            self.fire_after(now);
        }
        let valve_closed = if self.muting && now.saturating_sub(mute_since) > MUTE_SAFETY_MS {
            self.close_stranded_mute(now)
        } else {
            false
        };
        let forced_ready = !tap.ready && now > READY_FALLBACK_MS;
        if forced_ready {
            tap.ready = true;
        }
        let idle_stop = idle_timeout_ms > 0 && now.saturating_sub(last_activity) > idle_timeout_ms;
        TickOutcome { fired_after, valve_closed, forced_ready, idle_stop }
    }
}

/// The latest output time among `events` (0 without output).
pub open spec fn last_output_ms(events: Seq<RawEvent>) -> u64
    decreases events.len(),
{
    if events.len() == 0 {
        0
    } else {
        let rest = last_output_ms(events.drop_last());
        match events.last() {
            RawEvent::Output { t_ms, .. } => if t_ms > rest {
                t_ms
            } else {
                rest
            },
            _ => rest,
        }
    }
}

/// When reveals still armed at shutdown are recorded: just before the final
/// `demo stop` was typed when the capture ended that way, else at the last
/// output.
pub open spec fn drain_ms_spec(events: Seq<RawEvent>) -> u64 {
    match stop_cutoff_spec(events) {
        Some(c) => if c > 0 {
            (c - 1) as u64
        } else {
            0
        },
        None => last_output_ms(events),
    }
}

/// When the reveals still armed at shutdown are recorded (see `drain_ms_spec`).
pub fn drain_timestamp(raw: &RawMacro) -> (r: u64)
    ensures
        r == drain_ms_spec(raw.events@),
{
    match stop_cutoff_ms(raw) {
        Some(c) => c.saturating_sub(1),
        None => {
            let mut best: u64 = 0;
            let mut k: usize = 0;
            while k < raw.events.len()
                invariant
                    0 <= k <= raw.events@.len(),
                    best == last_output_ms(raw.events@.take(k as int)),
                decreases raw.events@.len() - k,
            {
                assert(raw.events@.take(k + 1).drop_last() =~= raw.events@.take(k as int));
                if let RawEvent::Output { t_ms, .. } = &raw.events[k] {
                    if *t_ms > best {
                        best = *t_ms;
                    }
                }
                k += 1;
            }
            assert(raw.events@.take(k as int) =~= raw.events@);
            best
        },
    }
}

// ---------------------------------------------------------------------------
// Terminal output
// ---------------------------------------------------------------------------

/// What the shell prints once a forced prompt is in place; the output before
/// it (prompt setup) is not recorded.
pub const PROMPT_READY: &'static str = "demostage_capture_ready";

/// Recent output kept for cue matching is dropped once it passes this many
/// bytes.
pub const RECENT_LIMIT: usize = 8192;

/// What the output side keeps between chunks: whether recording has begun
/// (the readiness marker was seen), the output before it, and the recent
/// output the `--when` cues are matched against.
pub struct OutputTap {
    pub ready: bool,
    pub pre: String,
    pub recent: String,
}

impl OutputTap {
    /// A tap that records from the start (`ready`) or waits for the marker.
    pub fn new(ready: bool) -> (r: OutputTap)
        ensures
            r.ready == ready,
            r.pre@.len() == 0,
            r.recent@.len() == 0,
    {
        OutputTap { ready, pre: String::new(), recent: String::new() }
    }
}

/// Where `p` first occurs in `s`, if it does.
pub open spec fn first_occurrence(s: Seq<char>, p: Seq<char>) -> Option<int> {
    if exists|i: int| occurs_at(s, p, i) {
        Some(choose|i: int| occurs_at(s, p, i) && forall|j: int| 0 <= j < i ==> !occurs_at(s, p, j))
    } else {
        None
    }
}

/// A `--when` reveal whose cue the output `recent` matches.
pub open spec fn cued(recent: Seq<char>, p: (Reveal, String)) -> bool {
    cue_matches_spec(recent, p.1@)
}

/// Fires every armed `--when` reveal whose cue `recent` matches: each is
/// recorded at `now`, in arming order, and leaves the queue; the others stay,
/// in order.
pub fn fire_cued(
    pending: &mut Vec<(Reveal, String)>,
    recent: &str,
    now: u64,
    events: &mut Vec<RawEvent>,
)
    ensures
        final(pending)@ == old(pending)@.filter(|p: (Reveal, String)| !cued(recent@, p)),
        ({
            let fired = old(pending)@.filter(|p: (Reveal, String)| cued(recent@, p));
            &&& final(events)@.len() == old(events)@.len() + fired.len()
            &&& final(events)@.take(old(events)@.len() as int) == old(events)@
            &&& forall|i: int|
                0 <= i < fired.len() ==> is_reveal_event(
                    #[trigger] final(events)@[old(events)@.len() + i],
                    fired[i].0,
                    now,
                )
        }),
{
    let ghost orig = pending@;
    let ghost e0 = events@;
    let ghost hit = |p: (Reveal, String)| cued(recent@, p);
    let ghost miss = |p: (Reveal, String)| !cued(recent@, p);
    let mut kept: Vec<(Reveal, String)> = Vec::new();
    let ghost mut k: int = 0;
    proof {
        reveal(Seq::filter);
        assert(orig.take(0) =~= Seq::<(Reveal, String)>::empty());
        assert(orig.skip(0) =~= orig);
    }
    while pending.len() > 0
        invariant
            0 <= k <= orig.len(),
            pending@ == orig.skip(k),
            kept@ == orig.take(k).filter(miss),
            e0 == old(events)@,
            orig == old(pending)@,
            events@.len() == e0.len() + orig.take(k).filter(hit).len(),
            events@.take(e0.len() as int) == e0,
            forall|i: int|
                0 <= i < orig.take(k).filter(hit).len() ==> is_reveal_event(
                    #[trigger] events@[e0.len() + i],
                    orig.take(k).filter(hit)[i].0,
                    now,
                ),
            hit == (|p: (Reveal, String)| cued(recent@, p)),
            miss == (|p: (Reveal, String)| !cued(recent@, p)),
        decreases pending@.len(),
    {
        let item = pending.remove(0);
        let ghost before_hits = orig.take(k).filter(hit);
        proof {
            assert(item == orig[k]);
            assert(orig.take(k + 1) =~= orig.take(k).push(item));
            orig.take(k).lemma_filter_push(item, hit);
            orig.take(k).lemma_filter_push(item, miss);
            assert(pending@ =~= orig.skip(k + 1));
        }
        if cue_matches(recent, item.1.as_str()) {
            let e = item.0.to_event(now);
            events.push(e);
            proof {
                assert(orig.take(k + 1).filter(hit) == before_hits.push(item));
                assert(events@.take(e0.len() as int) =~= e0);
            }
        } else {
            kept.push(item);
        }
        proof {
            k = k + 1;
        }
    }
    proof {
        assert(orig.take(k) =~= orig);
    }
    *pending = kept;
}

/// The text after the readiness marker in the output so far `p`, when the
/// marker has appeared.
pub open spec fn after_marker(p: Seq<char>) -> Option<Seq<char>> {
    match first_occurrence(p, PROMPT_READY@) {
        Some(i) => Some(p.skip(i + PROMPT_READY@.len())),
        None => None,
    }
}

/// Output before recording has begun: it accumulates until the readiness
/// marker appears; then recording begins and the text after the marker's
/// first occurrence is returned (to be recorded) and starts the recent output.
fn preroll(tap: &mut OutputTap, text: &str) -> (r: Option<String>)
    requires
        !old(tap).ready,
    ensures
        match after_marker(old(tap).pre@ + text@) {
            Some(after) => {
                &&& final(tap).ready
                &&& final(tap).pre@.len() == 0
                &&& final(tap).recent@ == old(tap).recent@ + after
                &&& if after.len() > 0 {
                    r matches Some(d) && d@ == after
                } else {
                    r.is_none()
                }
            },
            None => {
                &&& !final(tap).ready
                &&& final(tap).pre@ == old(tap).pre@ + text@
                &&& final(tap).recent == old(tap).recent
                &&& r.is_none()
            },
        },
{
    let mark = chars_of(PROMPT_READY);
    let mut pv = chars_of(tap.pre.as_str());
    let tv = chars_of(text);
    crate::text::extend_chars(&mut pv, &tv);
    let ghost p = pv@;
    let n = pv.len();
    match find_from(&pv, &mark, 0) {
        Some(i) => {
            proof {
                let j = choose|j: int|
                    occurs_at(p, mark@, j) && forall|m: int| 0 <= m < j ==> !occurs_at(p, mark@, m);
                if j < i {
                    assert(occurs_at(p, mark@, j));
                } else if i < j {
                    assert(!occurs_at(p, mark@, i as int));
                }
                assert(first_occurrence(p, PROMPT_READY@) == Some(i as int));
                assert(i + mark@.len() <= n);
            }
            let start = i + mark.len();
            let rest = slice_of(&pv, start, n);
            assert(rest@ =~= p.skip(i + PROMPT_READY@.len()));
            tap.pre = String::new();
            tap.ready = true;
            push_chars(&mut tap.recent, &rest);
            if rest.len() > 0 {
                Some(string_of(&rest))
            } else {
                assert(tap.recent@ =~= old(tap).recent@ + rest@);
                None
            }
        },
        None => {
            proof {
                assert(!exists|j: int| occurs_at(p, mark@, j)) by {
                    if exists|j: int| occurs_at(p, mark@, j) {
                        let j = choose|j: int| occurs_at(p, mark@, j);
                        assert(0 <= j);
                    }
                }
            }
            tap.pre = string_of(&pv);
            None
        },
    }
}

impl CaptureLog {
    /// Recorded output once recording has begun (see `on_output`).
    fn live_output(&mut self, tap: &mut OutputTap, text: &str, now: u64)
        requires
            old(tap).ready,
            !old(self).muting,
        ensures
            final(self).after == old(self).after,
            final(self).after_running == old(self).after_running,
            final(self).muting == old(self).muting,
            final(self).mute_start == old(self).mute_start,
            final(self).mute_spans == old(self).mute_spans,
            ({
                let r = old(tap).recent@ + text@;
                let fired = old(self).pending@.filter(|p: (Reveal, String)| cued(r, p));
                let base = old(self).events@.len();
                &&& final(tap).ready
                &&& final(tap).pre == old(tap).pre
                &&& final(tap).recent@ == (if utf8_width(r) > RECENT_LIMIT {
                    Seq::<char>::empty()
                } else {
                    r
                })
                &&& final(self).pending@ == old(self).pending@.filter(
                    |p: (Reveal, String)| !cued(r, p),
                )
                &&& final(self).events@.len() == base + fired.len() + 1
                &&& final(self).events@.take(base as int) == old(self).events@
                &&& forall|i: int|
                    0 <= i < fired.len() ==> is_reveal_event(
                        #[trigger] final(self).events@[base + i],
                        fired[i].0,
                        now,
                    )
                &&& final(self).events@.last() matches RawEvent::Output { t_ms, data } && t_ms
                    == now && data@ == text@
            }),
    {
        let ghost e0 = self.events@;
        push_str(&mut tap.recent, text);
        fire_cued(&mut self.pending, tap.recent.as_str(), now, &mut self.events);
        let ghost e1 = self.events@;
        let rv = chars_of(tap.recent.as_str());
        if utf8_width_exec(&rv) > RECENT_LIMIT {
            tap.recent = String::new();
        }
        let mut data = String::new();
        push_str(&mut data, text);
        self.events.push(RawEvent::Output { t_ms: now, data });
        assert(self.events@.take(e0.len() as int) =~= e1.take(e0.len() as int));
    }

    /// A chunk of terminal output `text` at time `now`. Before the readiness
    /// marker, output only accumulates (see `preroll`); what follows the marker
    /// is recorded. While a control command runs, output is dropped. Otherwise
    /// it joins the recent output, fires the `--when` reveals it cues (see
    /// `fire_cued`), and is recorded; the recent output is dropped once past
    /// `RECENT_LIMIT` bytes.
    pub fn on_output(&mut self, tap: &mut OutputTap, text: &str, now: u64)
        ensures
            final(self).after == old(self).after,
            final(self).after_running == old(self).after_running,
            final(self).muting == old(self).muting,
            final(self).mute_start == old(self).mute_start,
            final(self).mute_spans == old(self).mute_spans,
            !old(tap).ready ==> {
                &&& final(self).pending == old(self).pending
                &&& match after_marker(old(tap).pre@ + text@) {
                    Some(after) => {
                        &&& final(tap).ready
                        &&& final(tap).pre@.len() == 0
                        &&& final(tap).recent@ == old(tap).recent@ + after
                        &&& if after.len() > 0 {
                            &&& final(self).events@.len() == old(self).events@.len() + 1
                            &&& final(self).events@.drop_last() == old(self).events@
                            &&& final(self).events@.last() matches RawEvent::Output { t_ms, data }
                                && t_ms == now && data@ == after
                        } else {
                            final(self).events == old(self).events
                        }
                    },
                    None => {
                        &&& !final(tap).ready
                        &&& final(tap).pre@ == old(tap).pre@ + text@
                        &&& final(tap).recent == old(tap).recent
                        &&& final(self).events == old(self).events
                    },
                }
            },
            old(tap).ready && old(self).muting ==> {
                &&& final(tap).ready
                &&& final(tap).pre == old(tap).pre
                &&& final(tap).recent == old(tap).recent
                &&& final(self).events == old(self).events
                &&& final(self).pending == old(self).pending
            },
            old(tap).ready && !old(self).muting ==> {
                let r = old(tap).recent@ + text@;
                let fired = old(self).pending@.filter(|p: (Reveal, String)| cued(r, p));
                let base = old(self).events@.len();
                &&& final(tap).ready
                &&& final(tap).pre == old(tap).pre
                &&& final(tap).recent@ == (if utf8_width(r) > RECENT_LIMIT {
                    Seq::<char>::empty()
                } else {
                    r
                })
                &&& final(self).pending@ == old(self).pending@.filter(
                    |p: (Reveal, String)| !cued(r, p),
                )
                &&& final(self).events@.len() == base + fired.len() + 1
                &&& final(self).events@.take(base as int) == old(self).events@
                &&& forall|i: int|
                    0 <= i < fired.len() ==> is_reveal_event(
                        #[trigger] final(self).events@[base + i],
                        fired[i].0,
                        now,
                    )
                &&& final(self).events@.last() matches RawEvent::Output { t_ms, data } && t_ms
                    == now && data@ == text@
            },
    {
        if !tap.ready {
            let recorded = preroll(tap, text);
            if let Some(data) = recorded {
                let ghost e0 = self.events@;
                self.events.push(RawEvent::Output { t_ms: now, data });
                assert(self.events@.drop_last() =~= e0);
            }
            return;
        }
        if self.muting {
            return;
        }
        self.live_output(tap, text, now);
    }
}

} // verus!
