//! The command line's data: the arguments of each subcommand as plain values,
//! and the export targets with the parser of their comma-separated list.

use vstd::prelude::*;
use crate::error::Error;
use crate::text::{chars_of, lower, lower_vec, push_chars, push_str, seq_eq, slice_of, split_on, split_pieces, trim, trim_bounds};

verus! {

broadcast use vstd::string::group_string_axioms;

/// Arguments of `demo doctor`.
#[derive(Debug, Clone)]
pub struct DoctorArgs {
    /// Try to install what's missing instead of only reporting it.
    pub fix: bool,
}

/// Arguments of `demo edit`.
#[derive(Debug, Clone)]
pub struct EditArgs {
    /// The demo score to edit interactively.
    pub input: String,
}

/// Arguments of `demo capture`.
#[derive(Debug, Clone)]
pub struct CaptureArgs {
    /// Where to write the recording (`.rec`).
    pub rec: String,
    /// Auto-stop after this many milliseconds with no terminal output (0 disables).
    pub idle_timeout_ms: u64,
    /// Shell/command to run inside the capture (defaults to `$SHELL`).
    pub shell: Option<String>,
    /// A prepared stage to splice the captured terminal flow into.
    pub into: Option<String>,
    /// Skip deriving a score.
    pub no_normalize: bool,
    /// Write a diagnostic log of every input/output chunk next to the recording.
    pub debug: bool,
    /// Where to write the raw capture macro, if anywhere.
    pub output: Option<String>,
    /// Where to write the normalized demo score.
    pub normalized_output: String,
    /// Don't write the score.
    pub no_score: bool,
    /// Force this PS1 in the captured shell.
    pub prompt: Option<String>,
    /// Keep the shell's real prompt.
    pub keep_prompt: bool,
    /// Font for the exported demo.
    pub font: Option<String>,
    /// Export canvas aspect ratio (`16:9`, `9:16`, `4:3`, `1:1`).
    pub aspect: Option<String>,
    /// Quality tier for the canvas (`fullhd` or `hd`).
    pub quality: Option<String>,
    /// Frame rate of the exported gif/mp4.
    pub fps: Option<u32>,
    /// Export canvas as `WxH`, `auto`, or a preset name.
    pub resolution: Option<String>,
}

/// Arguments of `demo record`.
#[derive(Debug, Clone)]
pub struct RecordArgs {
    /// The demo score to execute.
    pub input: String,
    /// Where to write the recording.
    pub output: String,
}

/// Supported export targets.
#[derive(Debug, Clone, Copy, PartialEq, Eq, Structural)]
pub enum Target {
    Gif,
    Mp4,
}

/// One or more export targets parsed from a comma-separated token.
#[derive(Debug, Clone)]
pub struct TargetList(pub Vec<Target>);

/// Arguments of `demo export` (the speed multiplier, a fraction, is read by the
/// front end).
#[derive(Debug, Clone)]
pub struct ExportArgs {
    /// The recording to render.
    pub input: String,
    /// Formats to build; all of them when absent.
    pub targets: Option<TargetList>,
    /// Export canvas as `WxH` or a preset name.
    pub resolution: Option<String>,
    /// Export canvas aspect ratio (`16:9`, `9:16`, `4:3`, `1:1`).
    pub aspect: Option<String>,
    /// Quality tier for the canvas (`fullhd` or `hd`).
    pub quality: Option<String>,
    /// Render a faithful capture as-is.
    pub force: bool,
}

/// Arguments of `demo focus` (the hold time, in fractional seconds, is read by
/// the front end).
#[derive(Debug, Clone)]
pub struct FocusArgs {
    /// Source(s) to show: `main` (the terminal) or a browser source id.
    pub sources: Vec<String>,
    /// Stack the two sources instead of placing them side by side.
    pub vertical: bool,
    /// Place the two sources side by side (the default).
    pub horizontal: bool,
    /// Reveal only when a line matches this cue.
    pub when: Option<String>,
    /// Reveal when the current foreground command finishes.
    pub after: bool,
    /// Scroll any browser pane down while it's on screen.
    pub scroll: bool,
    /// Emulated colour scheme for browser panes: `light` or `dark`.
    pub theme: Option<String>,
}

/// How `demo open` places a revealed page.
#[derive(Debug, Clone, Copy, PartialEq, Eq, Structural)]
pub enum OpenMode {
    Replace,
    Split,
}

/// Arguments of `demo open`.
#[derive(Debug, Clone)]
pub struct OpenArgs {
    /// URL (or local file) to reveal.
    pub url: Option<String>,
    /// Force the wizard even when a URL is given.
    pub wizard: bool,
    /// Place beside the terminal instead of replacing the whole frame.
    pub split: bool,
    /// `replace` (full screen) or `split` (beside terminal).
    pub mode: OpenMode,
    /// Reveal only when a line containing this substring appears in the output.
    pub when: Option<String>,
    /// Reveal when the current foreground command finishes.
    pub after: bool,
    /// Hold the scene on screen for this many milliseconds.
    pub hold: Option<u64>,
    /// Scroll the page down while the scene is on screen.
    pub scroll: bool,
    /// Emulated colour scheme: `light` or `dark`.
    pub theme: Option<String>,
    /// Open a real browser driven by hand.
    pub view: bool,
}

/// Every format `demo export` builds when no target is given.
pub open spec fn all_targets_spec() -> Seq<Target> {
    seq![Target::Gif, Target::Mp4]
}

/// Every format `demo export` builds when no target is given.
pub fn all_targets() -> (r: Vec<Target>)
    ensures
        r@ == all_targets_spec(),
{
    let r = vec![Target::Gif, Target::Mp4];
    assert(r@ =~= all_targets_spec());
    r
}

/// The target named `p` (matched case-insensitively).
pub open spec fn target_named(p: Seq<char>) -> Option<Target> {
    if lower(p) == "gif"@ {
        Some(Target::Gif)
    } else if lower(p) == "mp4"@ {
        Some(Target::Mp4)
    } else {
        None
    }
}

pub open spec fn invalid_format_msg(p: Seq<char>) -> Seq<char> {
    "invalid format '"@ + p + "' (expected gif, mp4 or all)"@
}

pub open spec fn no_formats_msg() -> Seq<char> {
    "no export formats given (try gif, mp4 or all)"@
}

/// Reading the comma-separated pieces `parts` from index `i` on, with the
/// targets `out` gathered so far: blank pieces are skipped, `all` (any case)
/// stands for every target, a repeated target is kept once, and the first
/// unknown piece is an error.
pub open spec fn targets_from(parts: Seq<Seq<char>>, i: int, out: Seq<Target>) -> Result<
    Seq<Target>,
    Seq<char>,
>
    decreases parts.len() - i,
{
    if i < 0 || i >= parts.len() {
        if out.len() == 0 {
            Err(no_formats_msg())
        } else {
            Ok(out)
        }
    } else {
        let p = trim(parts[i]);
        if p.len() == 0 {
            targets_from(parts, i + 1, out)
        } else if lower(p) == "all"@ {
            Ok(all_targets_spec())
        } else {
            match target_named(p) {
                None => Err(invalid_format_msg(p)),
                Some(t) => targets_from(
                    parts,
                    i + 1,
                    if out.contains(t) {
                        out
                    } else {
                        out.push(t)
                    },
                ),
            }
        }
    }
}

/// What `parse_targets` gives for the token `s`.
pub open spec fn parse_targets_spec(s: Seq<char>) -> Result<Seq<Target>, Seq<char>> {
    targets_from(split_on(s, ','), 0, seq![])
}

/// The target named by `p`, if any.
fn target_of(p: &Vec<char>) -> (r: Option<Target>)
    ensures
        r == target_named(p@),
{
    let l = lower_vec(p);
    let gif: Vec<char> = vec!['g', 'i', 'f'];
    let mp4: Vec<char> = vec!['m', 'p', '4'];
    proof {
        reveal_strlit("gif");
        reveal_strlit("mp4");
        assert(gif@ == "gif"@);
        assert(mp4@ == "mp4"@);
    }
    if seq_eq(&l, &gif) {
        Some(Target::Gif)
    } else if seq_eq(&l, &mp4) {
        Some(Target::Mp4)
    } else {
        None
    }
}

fn has_target(out: &Vec<Target>, t: Target) -> (r: bool)
    ensures
        r == out@.contains(t),
{
    let mut k: usize = 0;
    while k < out.len()
        invariant
            0 <= k <= out@.len(),
            forall|j: int| 0 <= j < k ==> out@[j] != t,
        decreases out@.len() - k,
    {
        if out[k] == t {
            return true;
        }
        k += 1;
    }
    false
}

/// Parse `gif,mp4` (or `all`) into a deduplicated list of targets.
pub fn parse_targets(s: &str) -> (r: Result<TargetList, String>)
    ensures
        match (r, parse_targets_spec(s@)) {
            (Ok(tl), Ok(ts)) => tl.0@ == ts,
            (Err(e), Err(m)) => e@ == m,
            _ => false,
        },
{
    let v = chars_of(s);
    let parts = split_pieces(&v, ',');
    let ghost ps = parts@.map_values(|p: Vec<char>| p@);
    let mut out: Vec<Target> = Vec::new();
    let mut k: usize = 0;
    let all: Vec<char> = vec!['a', 'l', 'l'];
    proof {
        reveal_strlit("all");
        assert(all@ == "all"@);
    }
    while k < parts.len()
        invariant
            0 <= k <= parts@.len(),
            ps == parts@.map_values(|p: Vec<char>| p@),
            ps == split_on(s@, ','),
            all@ == "all"@,
            targets_from(ps, k as int, out@) == parse_targets_spec(s@),
        decreases parts@.len() - k,
    {
        let part = &parts[k];
        let (a, b) = trim_bounds(part);
        let p = slice_of(part, a, b);
        assert(p@ == trim(ps[k as int]));
        if p.len() > 0 {
            let l = lower_vec(&p);
            if seq_eq(&l, &all) {
                return Ok(TargetList(all_targets()));
            }
            match target_of(&p) {
                None => {
                    let mut msg = String::new();
                    push_str(&mut msg, "invalid format '");
                    push_chars(&mut msg, &p);
                    push_str(&mut msg, "' (expected gif, mp4 or all)");
                    return Err(msg);
                },
                Some(t) => {
                    if !has_target(&out, t) {
                        out.push(t);
                    }
                },
            }
        }
        k += 1;
    }
    if out.len() == 0 {
        let mut msg = String::new();
        push_str(&mut msg, "no export formats given (try gif, mp4 or all)");
        return Err(msg);
    }
    Ok(TargetList(out))
}

/// The score's `[demo] targets` entry `n`: trimmed and compared
/// case-insensitively with `gif` and `mp4`.
pub open spec fn score_target(n: Seq<char>) -> Option<Target> {
    let l = lower(trim(n));
    if l == "gif"@ {
        Some(Target::Gif)
    } else if l == "mp4"@ {
        Some(Target::Mp4)
    } else {
        None
    }
}

pub open spec fn unknown_target_msg(n: Seq<char>) -> Seq<char> {
    "[demo] targets in the score: unknown format '"@ + lower(trim(n))
        + "' (expected gif or mp4)"@
}

/// The targets named by the score, in its order; `None` at the first name
/// that is not a target (whose index is then `first_unknown`).
#[verifier::opaque]
pub open spec fn first_unknown(names: Seq<Seq<char>>) -> Option<int> {
    if exists|i: int| 0 <= i < names.len() && score_target(#[trigger] names[i]) is None {
        Some(
            choose|i: int|
                0 <= i < names.len() && score_target(names[i]) is None && forall|j: int|
                    0 <= j < i ==> score_target(#[trigger] names[j]) is Some,
        )
    } else {
        None
    }
}

proof fn lemma_first_unknown_at(ns: Seq<Seq<char>>, k: int)
    requires
        0 <= k < ns.len(),
        score_target(ns[k]) is None,
        forall|j: int| 0 <= j < k ==> score_target(#[trigger] ns[j]) is Some,
    ensures
        first_unknown(ns) == Some(k),
{
    reveal(first_unknown);
    let w = choose|i: int|
        0 <= i < ns.len() && score_target(ns[i]) is None && forall|j: int|
            0 <= j < i ==> score_target(#[trigger] ns[j]) is Some;
    if w < k {
        assert(score_target(ns[w]) is Some);
    } else if w > k {
        assert(score_target(ns[k]) is Some);
    }
}

proof fn lemma_first_unknown_none(ns: Seq<Seq<char>>)
    requires
        forall|j: int| 0 <= j < ns.len() ==> score_target(#[trigger] ns[j]) is Some,
    ensures
        first_unknown(ns).is_none(),
{
    reveal(first_unknown);
}

/// The target a score entry names, and the entry trimmed and lower-cased.
fn score_target_exec(name: &str) -> (r: (Option<Target>, Vec<char>))
    ensures
        r.0 == score_target(name@),
        r.1@ == lower(trim(name@)),
{
    let v = chars_of(name);
    let (a, b) = trim_bounds(&v);
    let tv = slice_of(&v, a, b);
    let l = lower_vec(&tv);
    proof {
        assert(lower(l@) =~= l@) by {
            assert forall|i: int| 0 <= i < l@.len() implies lower(l@)[i] == l@[i] by {
                assert(l@[i] == crate::text::lower_char(tv@[i]));
            }
        }
    }
    (target_of(&l), l)
}

/// Resolve the export targets: the score's `[demo] targets` (every one must
/// name a format; the first that does not is the error), else — absent or
/// empty — every format.
pub fn resolve_targets(from_score: Option<&[String]>) -> (r: Result<Vec<Target>, Error>)
    ensures
        match from_score {
            None => r is Ok && r->Ok_0@ == all_targets_spec(),
            Some(names) => {
                let ns = names@.map_values(|n: String| n@);
                if ns.len() == 0 {
                    r is Ok && r->Ok_0@ == all_targets_spec()
                } else {
                    match first_unknown(ns) {
                        None => r is Ok && r->Ok_0@ == ns.map_values(|n: Seq<char>| score_target(n).unwrap()),
                        Some(i) => r is Err && r->Err_0.export_text() == Some(unknown_target_msg(ns[i])),
                    }
                }
            },
        },
{
    let names = match from_score {
        None => return Ok(all_targets()),
        Some(names) => names,
    };
    if names.len() == 0 {
        return Ok(all_targets());
    }
    let ghost ns = names@.map_values(|n: String| n@);
    let mut out: Vec<Target> = Vec::new();
    let mut k: usize = 0;
    while k < names.len()
        invariant
            0 <= k <= names@.len(),
            ns == names@.map_values(|n: String| n@),
            from_score == Some(names),
            ns.len() > 0,
            out@.len() == k,
            forall|j: int|
                0 <= j < k ==> score_target(#[trigger] ns[j]) is Some && out@[j] == score_target(
                    ns[j],
                ).unwrap(),
        decreases names@.len() - k,
    {
        let (found, l) = score_target_exec(names[k].as_str());
        assert(names@[k as int]@ == ns[k as int]);
        match found {
            Some(tg) => {
                out.push(tg);
            },
            None => {
                proof {
                    lemma_first_unknown_at(ns, k as int);
                }
                let mut msg = String::new();
                push_str(&mut msg, "[demo] targets in the score: unknown format '");
                push_chars(&mut msg, &l);
                push_str(&mut msg, "' (expected gif or mp4)");
                return Err(Error::Export(msg));
            },
        }
        k += 1;
    }
    proof {
        lemma_first_unknown_none(ns);
        assert(out@ =~= ns.map_values(|n: Seq<char>| score_target(n).unwrap()));
    }
    Ok(out)
}

} // verus!
