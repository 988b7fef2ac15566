//! What `demo record` decides before and while it replays a score in a PTY:
//! the one terminal pane it records, the grid that pane holds, the secrets to
//! ask for up front, whether a prompt has already shown in the output, and the
//! browser panes' windows on the run's own clock.

use vstd::prelude::*;
use crate::error::Error;
use crate::model::{Pane, PaneKind, Score, Step};
use crate::shell::{
    default_prompt_for, is_zsh, is_zsh_spec, key_bytes_spec, key_to_bytes, secret_needle,
    secret_needle_spec, sh_single_quote, sq_body, DEFAULT_PROMPT, DEFAULT_ZSH_PROMPT,
};
use crate::recording::{CELL_H, CELL_W};
use crate::text::{chars_of, contains, contains_seq, push_str, seq_eq};

verus! {

broadcast use vstd::string::group_string_axioms;

/// The message for a score with a browser pane.
pub open spec fn browser_panes_msg() -> Seq<char> {
    "browser panes need a browser renderer (chromium) and aren't supported yet — terminal panes only for now"@
}

/// How many of the first `n` panes are terminals.
pub open spec fn terminal_count(panes: Seq<Pane>, n: int) -> nat
    decreases n,
{
    if n <= 0 {
        0
    } else {
        terminal_count(panes, n - 1) + if panes[n - 1].kind == PaneKind::Terminal {
            1nat
        } else {
            0nat
        }
    }
}

/// The terminal pane a single-terminal recording runs in: refused when any pane
/// is a browser, when there is no terminal, or when there are several.
pub fn single_terminal_pane(score: &Score) -> (r: Result<&Pane, Error>)
    ensures
        ({
            let panes = score.layout.panes@;
            let has_browser = exists|i: int|
                0 <= i < panes.len() && (#[trigger] panes[i]).kind == PaneKind::Browser;
            let n = terminal_count(panes, panes.len() as int);
            match r {
                Ok(p) => !has_browser && n == 1 && exists|i: int|
                    0 <= i < panes.len() && panes[i] == *p && p.kind == PaneKind::Terminal,
                Err(e) => if has_browser {
                    e.export_text() == Some(browser_panes_msg())
                } else if n == 0 {
                    e.export_text() == Some("no terminal pane to record"@)
                } else {
                    n >= 2 && e.export_text() == Some(
                        "cast/html support a single terminal pane (found several)"@,
                    )
                },
            }
        }),
{
    let panes = &score.layout.panes;
    let mut i: usize = 0;
    while i < panes.len()
        invariant
            panes@ == score.layout.panes@,
            0 <= i <= panes@.len(),
            forall|j: int| 0 <= j < i ==> (#[trigger] panes@[j]).kind != PaneKind::Browser,
        decreases panes@.len() - i,
    {
        if panes[i].kind == PaneKind::Browser {
            assert(panes@[i as int].kind == PaneKind::Browser);
            let mut m = String::new();
            push_str(
                &mut m,
                "browser panes need a browser renderer (chromium) and aren't supported yet — terminal panes only for now",
            );
            assert(m@ =~= browser_panes_msg());
            return Err(Error::Export(m));
        }
        i += 1;
    }
    let mut found: Option<usize> = None;
    let mut k: usize = 0;
    while k < panes.len()
        invariant
            panes@ == score.layout.panes@,
            0 <= k <= panes@.len(),
            forall|j: int| 0 <= j < panes@.len() ==> (#[trigger] panes@[j]).kind != PaneKind::Browser,
            match found {
                Some(f) => f < k && panes@[f as int].kind == PaneKind::Terminal && terminal_count(
                    panes@,
                    k as int,
                ) == 1,
                None => terminal_count(panes@, k as int) == 0,
            },
        decreases panes@.len() - k,
    {
        if panes[k].kind == PaneKind::Terminal {
            if found.is_some() {
                proof {
                    assert(terminal_count(panes@, k + 1) == 2);
                    lemma_terminal_count_mono(panes@, k + 1, panes@.len() as int);
                }
                let mut m = String::new();
                push_str(&mut m, "cast/html support a single terminal pane (found several)");
                assert(m@ =~= "cast/html support a single terminal pane (found several)"@);
                return Err(Error::Export(m));
            }
            found = Some(k);
        }
        k += 1;
    }
    match found {
        Some(f) => {
            assert(panes@[f as int] == panes@[f as int]);
            Ok(&panes[f])
        },
        None => {
            let mut m = String::new();
            push_str(&mut m, "no terminal pane to record");
            assert(m@ =~= "no terminal pane to record"@);
            Err(Error::Export(m))
        },
    }
}

proof fn lemma_terminal_count_mono(panes: Seq<Pane>, a: int, b: int)
    requires
        0 <= a <= b,
    ensures
        terminal_count(panes, a) <= terminal_count(panes, b),
    decreases b - a,
{
    if a < b {
        lemma_terminal_count_mono(panes, a, b - 1);
    }
}

/// `v` clamped to `1..=1000`.
pub open spec fn grid_side(v: u32) -> u16 {
    if v < 1 {
        1
    } else if v > 1000 {
        1000
    } else {
        v as u16
    }
}

/// The terminal grid `(cols, rows)` a pane holds: its size in cells, each side
/// clamped to `1..=1000`.
pub fn pty_grid(pane: &Pane) -> (r: (u16, u16))
    ensures
        r == (grid_side(pane.width / CELL_W), grid_side(pane.height / CELL_H)),
{
    let c = pane.width / CELL_W;
    let r = pane.height / CELL_H;
    let cols: u16 = if c < 1 {
        1
    } else if c > 1000 {
        1000
    } else {
        c as u16
    };
    let rows: u16 = if r < 1 {
        1
    } else if r > 1000 {
        1000
    } else {
        r as u16
    };
    (cols, rows)
}

/// The prompts of the `secret` steps among the first `n` steps, each once, in
/// order of first appearance.
pub open spec fn secret_prompts_spec(timeline: Seq<Step>, n: int) -> Seq<Seq<char>>
    decreases n,
{
    if n <= 0 {
        Seq::empty()
    } else {
        let rest = secret_prompts_spec(timeline, n - 1);
        match timeline[n - 1] {
            Step::Secret { prompt } => if rest.contains(prompt@) {
                rest
            } else {
                rest.push(prompt@)
            },
            _ => rest,
        }
    }
}

/// The secrets a score enters, to ask for up front: each `secret` step's
/// prompt, once, in order.
pub fn secret_prompts(score: &Score) -> (r: Vec<String>)
    ensures
        r@.map_values(|s: String| s@) == secret_prompts_spec(score.timeline@, score.timeline@.len() as int),
{
    let tl = &score.timeline;
    let mut r: Vec<String> = Vec::new();
    let mut k: usize = 0;
    while k < tl.len()
        invariant
            0 <= k <= tl@.len(),
            r@.map_values(|s: String| s@) == secret_prompts_spec(tl@, k as int),
        decreases tl@.len() - k,
    {
        if let Step::Secret { prompt } = &tl[k] {
            let pv = chars_of(prompt.as_str());
            let mut seen = false;
            let mut j: usize = 0;
            let ghost done = r@.map_values(|s: String| s@);
            while j < r.len()
                invariant
                    0 <= j <= r@.len(),
                    pv@ == prompt@,
                    done == r@.map_values(|s: String| s@),
                    seen == exists|m: int| 0 <= m < j && done[m] == pv@,
                decreases r@.len() - j,
            {
                let q = chars_of(r[j].as_str());
                if seq_eq(&q, &pv) {
                    seen = true;
                }
                assert(done[j as int] == r@[j as int]@);
                j += 1;
            }
            proof {
                if seen {
                    let m = choose|m: int| 0 <= m < j && done[m] == pv@;
                    assert(done.contains(prompt@));
                } else {
                    assert(!done.contains(prompt@));
                }
            }
            if !seen {
                let ghost before = r@;
                r.push(prompt.clone());
                assert(r@.map_values(|s: String| s@) =~= before.map_values(|s: String| s@).push(prompt@));
            }
        }
        k += 1;
    }
    r
}

/// How many of the latest output chunks are searched for a prompt.
pub const RECENT_CHUNKS: usize = 40;

/// Whether `needle` occurs in one of the last `RECENT_CHUNKS` output chunks.
pub open spec fn recent_contains_spec(chunks: Seq<Seq<char>>, needle: Seq<char>) -> bool {
    exists|i: int|
        0 <= i < chunks.len() && chunks.len() - RECENT_CHUNKS <= i && contains_seq(
            #[trigger] chunks[i],
            needle,
        )
}

/// Has `needle` shown up in one of the latest output chunks (so a prompt being
/// waited for has already printed)?
pub fn recent_contains(chunks: &[String], needle: &str) -> (r: bool)
    ensures
        r == recent_contains_spec(chunks@.map_values(|s: String| s@), needle@),
{
    let nv = chars_of(needle);
    let n = chunks.len();
    let start: usize = if n > RECENT_CHUNKS {
        n - RECENT_CHUNKS
    } else {
        0
    };
    let ghost cs = chunks@.map_values(|s: String| s@);
    let mut i: usize = start;
    while i < n
        invariant
            start <= i <= n,
            n == chunks@.len(),
            start == (if n > RECENT_CHUNKS {
                n - RECENT_CHUNKS
            } else {
                0
            }),
            nv@ == needle@,
            cs == chunks@.map_values(|s: String| s@),
            forall|j: int| start <= j < i ==> !contains_seq(#[trigger] cs[j], needle@),
        decreases n - i,
    {
        let v = chars_of(chunks[i].as_str());
        if contains(&v, &nv) {
            assert(cs[i as int] == v@);
            return true;
        }
        i += 1;
    }
    false
}

// ---------------------------------------------------------------------------
// Browser windows on the run's clock
// ---------------------------------------------------------------------------

/// The focuses of a run by their views: `(time in ms, pane id)`.
pub open spec fn focuses_view(f: Seq<(u64, String)>) -> Seq<(u64, Seq<char>)> {
    f.map_values(|e: (u64, String)| (e.0, e.1@))
}

/// The first index from `i` on whose id is (`same`) or is not `id`.
pub open spec fn next_focus(f: Seq<(u64, Seq<char>)>, id: Seq<char>, same: bool, i: int) -> Option<int>
    decreases f.len() - i,
{
    if i < 0 || i >= f.len() {
        None
    } else if (f[i].1 == id) == same {
        Some(i)
    } else {
        next_focus(f, id, same, i + 1)
    }
}

/// A browser pane's window `(reveal_at, hide_at)` on the run's clock: it
/// reveals at its first focus and hides at the next focus of another pane; a
/// pane never focused in the run stays off screen (`(None, Some(0))`).
pub open spec fn anchored_window(f: Seq<(u64, Seq<char>)>, id: Seq<char>) -> (Option<u64>, Option<u64>) {
    match next_focus(f, id, true, 0) {
        Some(i) => (
            Some(f[i].0),
            match next_focus(f, id, false, i + 1) {
                Some(j) => Some(f[j].0),
                None => None,
            },
        ),
        None => (None, Some(0)),
    }
}

fn find_focus(f: &[(u64, String)], id: &str, same: bool, from: usize) -> (r: Option<usize>)
    requires
        from <= f@.len(),
    ensures
        match r {
            Some(i) => from <= i < f@.len() && next_focus(focuses_view(f@), id@, same, from as int)
                == Some(i as int),
            None => next_focus(focuses_view(f@), id@, same, from as int).is_none(),
        },
{
    let ghost fv = focuses_view(f@);
    let idv = chars_of(id);
    let mut i: usize = from;
    while i < f.len()
        invariant
            from <= i <= f@.len(),
            fv == focuses_view(f@),
            idv@ == id@,
            next_focus(fv, id@, same, from as int) == next_focus(fv, id@, same, i as int),
        decreases f@.len() - i,
    {
        let ev = chars_of(f[i].1.as_str());
        assert(fv[i as int] == (f@[i as int].0, f@[i as int].1@));
        if seq_eq(&ev, &idv) == same {
            return Some(i);
        }
        i += 1;
    }
    None
}

/// The window of the browser pane `id` on the run's clock.
pub fn anchor_window(id: &str, focuses: &[(u64, String)]) -> (r: (Option<u64>, Option<u64>))
    ensures
        r == anchored_window(focuses_view(focuses@), id@),
{
    let ghost fv = focuses_view(focuses@);
    let _len = focuses.len();
    match find_focus(focuses, id, true, 0) {
        Some(i) => {
            assert(fv[i as int].0 == focuses@[i as int].0);
            let hide = match find_focus(focuses, id, false, i + 1) {
                Some(j) => {
                    assert(fv[j as int].0 == focuses@[j as int].0);
                    Some(focuses[j].0)
                },
                None => None,
            };
            (Some(focuses[i].0), hide)
        },
        None => (None, Some(0)),
    }
}

/// Each pane's window re-anchored to the moments this run's `focus` steps
/// fired: for a browser pane its anchored window, for a terminal `None` (it is
/// always on screen).
pub fn anchor_browser_windows(score: &Score, focuses: &[(u64, String)]) -> (r: Vec<
    Option<(Option<u64>, Option<u64>)>,
>)
    ensures
        r@.len() == score.layout.panes@.len(),
        forall|k: int|
            0 <= k < r@.len() ==> #[trigger] r@[k] == if score.layout.panes@[k].kind
                == PaneKind::Browser {
                Some(anchored_window(focuses_view(focuses@), score.layout.panes@[k].id@))
            } else {
                None
            },
{
    let panes = &score.layout.panes;
    let mut r: Vec<Option<(Option<u64>, Option<u64>)>> = Vec::new();
    let mut k: usize = 0;
    while k < panes.len()
        invariant
            k <= panes@.len(),
            panes@ == score.layout.panes@,
            r@.len() == k,
            forall|m: int|
                0 <= m < k ==> #[trigger] r@[m] == if panes@[m].kind == PaneKind::Browser {
                    Some(anchored_window(focuses_view(focuses@), panes@[m].id@))
                } else {
                    None
                },
        decreases panes@.len() - k,
    {
        if panes[k].kind == PaneKind::Browser {
            r.push(Some(anchor_window(panes[k].id.as_str(), focuses)));
        } else {
            r.push(None);
        }
        k += 1;
    }
    r
}

// ---------------------------------------------------------------------------
// Running the timeline
// ---------------------------------------------------------------------------

/// Cap for a wait on output or on the screen, so a missing match cannot hang
/// an export.
pub const WAIT_FOR_TIMEOUT_MS: u64 = 15_000;
/// Output collected after a key press.
pub const KEYPRESS_COLLECT_MS: u64 = 60;
/// What the finished recording holds past its settle point.
pub const END_HOLD_MS: u64 = 200;

/// The variable a shell reads its prompt from: `PROMPT` for zsh, else `PS1`.
pub open spec fn prompt_var_spec(shell: Seq<char>) -> Seq<char> {
    if is_zsh_spec(shell) {
        "PROMPT"@
    } else {
        "PS1"@
    }
}

/// The prompt variable for `shell`.
pub fn prompt_var(shell: &str) -> (r: &'static str)
    ensures
        r@ == prompt_var_spec(shell@),
{
    if is_zsh(shell) {
        "PROMPT"
    } else {
        "PS1"
    }
}

/// The prompt a run forces: the score's own, else the built-in one for the
/// shell.
pub fn run_prompt(score: &Score, shell: &str) -> (r: String)
    ensures
        r@ == match score.demo.prompt {
            Some(p) => p@,
            None => if is_zsh_spec(shell@) {
                DEFAULT_ZSH_PROMPT@
            } else {
                DEFAULT_PROMPT@
            },
        },
{
    match &score.demo.prompt {
        Some(p) => p.clone(),
        None => default_prompt_for(shell),
    }
}

/// The line typed before the clock starts: it forces the prompt (after the rc
/// files set their own) and clears the screen, e.g. `PS1='$ '; clear`.
pub open spec fn prompt_line_spec(shell: Seq<char>, prompt: Seq<char>) -> Seq<char> {
    prompt_var_spec(shell) + "="@ + seq!['\''] + sq_body(prompt) + seq!['\''] + "; clear"@
}

/// The prompt-forcing line for `shell`.
pub fn prompt_line(shell: &str, prompt: &str) -> (r: String)
    ensures
        r@ == prompt_line_spec(shell@, prompt@),
{
    let mut s = String::new();
    push_str(&mut s, prompt_var(shell));
    push_str(&mut s, "=");
    let q = sh_single_quote(prompt);
    push_str(&mut s, q.as_str());
    push_str(&mut s, "; clear");
    assert(s@ =~= prompt_line_spec(shell@, prompt@));
    s
}

/// What the runner does for one step of the timeline.
#[derive(Debug, Clone)]
pub enum StepAction {
    /// Nothing (a focus without a target, or a browser-only scroll).
    Skip,
    /// Note the moment a pane took focus.
    Focus(String),
    /// Note the moment a caption changed.
    Caption(String),
    /// Type a text character by character (paced like a human when asked).
    Type { text: String, human_salt: bool },
    /// Write these bytes, then collect output for a moment.
    Key { bytes: Vec<u8>, collect_ms: u64 },
    /// Collect output for a fixed time.
    Sleep(u64),
    /// Collect output until it contains the pattern (capped).
    WaitFor { pattern: String, timeout_ms: u64 },
    /// Collect output until it has been quiet for `quiet_ms` (capped).
    Settle { quiet_ms: u64, max_ms: u64 },
    /// Collect output until the screen shows the pattern (capped).
    WaitForScreen { pattern: String, timeout_ms: u64 },
    /// Type the secret asked for by `prompt`, once `needle` has shown.
    Secret { prompt: String, needle: String },
    /// End the run.
    Stop,
}

/// The action for a step, as a specification.
pub open spec fn step_action_ok(step: Step, a: StepAction) -> bool {
    match step {
        Step::Focus { pane } => match pane {
            Some(p) => a matches StepAction::Focus(id) && id@ == p@,
            None => a is Skip,
        },
        Step::Caption { text } => a matches StepAction::Caption(t) && t@ == text@,
        Step::Type { text, human_salt } => a matches StepAction::Type { text: t, human_salt: h } && t@
            == text@ && h == human_salt,
        Step::Keypress { key } => a matches StepAction::Key { bytes, collect_ms } && bytes@
            == key_bytes_spec(key@) && collect_ms == KEYPRESS_COLLECT_MS,
        Step::Wait { duration_ms } => a == StepAction::Sleep(duration_ms),
        Step::WaitForStdout { pattern, .. } => a matches StepAction::WaitFor { pattern: p, timeout_ms }
            && p@ == pattern@ && timeout_ms == WAIT_FOR_TIMEOUT_MS,
        Step::WaitForQuiet { quiet_ms, max_ms } => a == StepAction::Settle {
            quiet_ms,
            max_ms: match max_ms {
                Some(m) => m,
                None => WAIT_FOR_TIMEOUT_MS,
            },
        },
        Step::WaitForScreen { pattern, timeout_ms } => a matches StepAction::WaitForScreen {
            pattern: p,
            timeout_ms: t,
        } && p@ == pattern@ && t == match timeout_ms {
            Some(m) => m,
            None => WAIT_FOR_TIMEOUT_MS,
        },
        Step::Secret { prompt } => a matches StepAction::Secret { prompt: p, needle } && p@ == prompt@
            && needle@ == secret_needle_spec(prompt@),
        Step::Scroll { .. } => a is Skip,
        Step::Terminate => a is Stop,
    }
}

/// What the runner does for `step`.
pub fn step_action(step: &Step) -> (a: StepAction)
    ensures
        step_action_ok(*step, a),
{
    match step {
        Step::Focus { pane } => match pane {
            Some(p) => StepAction::Focus(p.clone()),
            None => StepAction::Skip,
        },
        Step::Caption { text } => StepAction::Caption(text.clone()),
        Step::Type { text, human_salt } => StepAction::Type { text: text.clone(), human_salt: *human_salt },
        Step::Keypress { key } => StepAction::Key {
            bytes: key_to_bytes(key.as_str()),
            collect_ms: KEYPRESS_COLLECT_MS,
        },
        Step::Wait { duration_ms } => StepAction::Sleep(*duration_ms),
        Step::WaitForStdout { pattern, .. } => StepAction::WaitFor {
            pattern: pattern.clone(),
            timeout_ms: WAIT_FOR_TIMEOUT_MS,
        },
        Step::WaitForQuiet { quiet_ms, max_ms } => StepAction::Settle {
            quiet_ms: *quiet_ms,
            max_ms: match max_ms {
                Some(m) => *m,
                None => WAIT_FOR_TIMEOUT_MS,
            },
        },
        Step::WaitForScreen { pattern, timeout_ms } => StepAction::WaitForScreen {
            pattern: pattern.clone(),
            timeout_ms: match timeout_ms {
                Some(m) => *m,
                None => WAIT_FOR_TIMEOUT_MS,
            },
        },
        Step::Secret { prompt } => StepAction::Secret {
            prompt: prompt.clone(),
            needle: secret_needle(prompt.as_str()),
        },
        Step::Scroll { .. } => StepAction::Skip,
        Step::Terminate => StepAction::Stop,
    }
}

/// Whether a secret step still has to wait for its prompt: its needle is not
/// blank and has not already shown in the latest output.
pub fn secret_needs_wait(needle: &str, chunks: &[String]) -> (r: bool)
    ensures
        r == (needle@.len() > 0 && !recent_contains_spec(
            chunks@.map_values(|s: String| s@),
            needle@,
        )),
{
    let n = chars_of(needle);
    n.len() > 0 && !recent_contains(chunks, needle)
}

/// The recording's end: the output after the settle point (the `exit` echo)
/// dropped, and the length, which holds `END_HOLD_MS` past the settle point.
pub fn finish_run(events: Vec<(u64, String)>, settle_end_ms: u64) -> (r: (Vec<(u64, String)>, u64))
    requires
        settle_end_ms + END_HOLD_MS <= u64::MAX,
    ensures
        r.0@ == events@.filter(|e: (u64, String)| e.0 <= settle_end_ms),
        r.1 == settle_end_ms + END_HOLD_MS,
{
    let mut kept: Vec<(u64, String)> = Vec::new();
    let mut i: usize = 0;
    while i < events.len()
        invariant
            i <= events@.len(),
            kept@ == events@.take(i as int).filter(|e: (u64, String)| e.0 <= settle_end_ms),
        decreases events@.len() - i,
    {
        proof {
            events@.take(i as int).lemma_filter_push(
                events@[i as int],
                |e: (u64, String)| e.0 <= settle_end_ms,
            );
            assert(events@.take(i + 1) =~= events@.take(i as int).push(events@[i as int]));
        }
        if events[i].0 <= settle_end_ms {
            kept.push((events[i].0, events[i].1.clone()));
        }
        i += 1;
    }
    assert(events@.take(events@.len() as int) =~= events@);
    (kept, settle_end_ms + END_HOLD_MS)
}

} // verus!
