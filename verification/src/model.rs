//! The data of a demo: the raw capture (a macro of timestamped events), and the
//! score it is normalized into (metadata, sources, the pane layout and the
//! timeline of steps). Times are integral milliseconds; the few fractional
//! settings of a score file (line height, reveal windows, playback speed) are
//! read and applied outside this crate.

use vstd::prelude::*;
use crate::text::{chars_of, seq_eq};

verus! {

broadcast use vstd::string::group_string_axioms;

/// How two panes of a reveal share the canvas.
#[derive(Debug, Clone, Copy, PartialEq, Eq, Structural)]
pub enum Orientation {
    Horizontal,
    Vertical,
}

/// Which way a scroll step moves the page.
#[derive(Debug, Clone, Copy, PartialEq, Eq, Structural)]
pub enum ScrollDirection {
    Up,
    Down,
}

/// The speed curve of a scroll.
#[derive(Debug, Clone, Copy, PartialEq, Eq, Structural)]
pub enum Velocity {
    Constant,
    EaseInOut,
}

/// What a layout pane shows.
#[derive(Debug, Clone, Copy, PartialEq, Eq, Structural)]
pub enum PaneKind {
    Terminal,
    Browser,
}

/// What a capture source is.
#[derive(Debug, Clone, Copy, PartialEq, Eq, Structural)]
pub enum SourceKind {
    Terminal,
    Browser,
}

/// One step of a score's timeline.
#[derive(Debug, Clone)]
pub enum Step {
    /// Type `text` (with human-like jitter when `human_salt`).
    Type { text: String, human_salt: bool },
    /// Press a named key.
    Keypress { key: String },
    /// Pause for a fixed time.
    Wait { duration_ms: u64 },
    /// Wait until the output has been quiet for `quiet_ms` (at most `max_ms`).
    WaitForQuiet { quiet_ms: u64, max_ms: Option<u64> },
    /// Wait until the screen shows `pattern`.
    WaitForScreen { pattern: String, timeout_ms: Option<u64> },
    /// Wait until the raw output of a pane contains `pattern`.
    WaitForStdout { pattern: String, pane: Option<String> },
    /// Reveal a pane.
    Focus { pane: Option<String> },
    /// Show a caption.
    Caption { text: String },
    /// Type a secret at `prompt` without recording it.
    Secret { prompt: String },
    /// Scroll a browser pane.
    Scroll { direction: ScrollDirection, velocity: Velocity, duration_ms: u64, pane: Option<String> },
    /// End the demo.
    Terminate,
}

/// A pane shown by a reveal during a capture.
#[derive(Debug, Clone)]
pub struct RevealPane {
    pub id: String,
    pub url: Option<String>,
    pub theme: Option<String>,
}

/// The view of an optional string.
pub open spec fn opt_str(o: Option<String>) -> Option<Seq<char>> {
    match o {
        Some(s) => Some(s@),
        None => None,
    }
}

/// A copy of an optional string.
pub fn copy_opt_str(o: &Option<String>) -> (r: Option<String>)
    ensures
        opt_str(r) == opt_str(*o),
{
    match o {
        Some(s) => Some(s.clone()),
        None => None,
    }
}

/// The view of a reveal pane: its id, URL and theme.
pub open spec fn reveal_pane_view(p: RevealPane) -> (Seq<char>, Option<Seq<char>>, Option<Seq<char>>) {
    (p.id@, opt_str(p.url), opt_str(p.theme))
}

impl RevealPane {
    /// The terminal pane (`main`), with no URL or theme.
    pub fn terminal() -> (r: RevealPane)
        ensures
            r.id@ == "main"@,
            r.url.is_none(),
            r.theme.is_none(),
    {
        RevealPane { id: "main".to_string(), url: None, theme: None }
    }

    /// A copy of this pane.
    pub fn copy(&self) -> (r: RevealPane)
        ensures
            reveal_pane_view(r) == reveal_pane_view(*self),
    {
        RevealPane { id: self.id.clone(), url: copy_opt_str(&self.url), theme: copy_opt_str(&self.theme) }
    }

    /// The terminal is the capture's background pane (`main`).
    pub open spec fn is_terminal_spec(&self) -> bool {
        self.id@ == "main"@
    }

    /// Whether this is the terminal pane.
    pub fn is_terminal(&self) -> (r: bool)
        ensures
            r == self.is_terminal_spec(),
    {
        let v = chars_of(self.id.as_str());
        let main: Vec<char> = vec!['m', 'a', 'i', 'n'];
        proof {
            reveal_strlit("main");
            assert(main@ == "main"@);
        }
        seq_eq(&v, &main)
    }
}

/// One timestamped event of a raw capture.
#[derive(Debug, Clone)]
pub enum RawEvent {
    /// Bytes typed by the user.
    Input { t_ms: u64, bytes: String },
    /// Bytes the terminal printed.
    Output { t_ms: u64, data: String },
    /// A reveal of browser panes.
    Reveal {
        t_ms: u64,
        panes: Vec<RevealPane>,
        orientation: Orientation,
        hold_ms: Option<u64>,
        scroll: bool,
    },
    /// A secret was typed at `prompt`.
    Secret { t_ms: u64, prompt: String },
}

/// The header of a raw capture.
#[derive(Debug, Clone)]
pub struct RawMeta {
    pub shell: String,
    pub cols: u16,
    pub rows: u16,
    pub idle_timeout_ms: u64,
    pub resolution: Option<(u32, u32)>,
    pub fps: Option<u32>,
    pub stage: Option<String>,
    pub mute_spans: Vec<(u64, u64)>,
}

/// A raw capture: its header and its events in time order.
#[derive(Debug, Clone)]
pub struct RawMacro {
    pub meta: RawMeta,
    pub events: Vec<RawEvent>,
}

/// A source configured for a capture.
#[derive(Debug, Clone)]
pub struct Source {
    pub id: String,
    pub kind: SourceKind,
    pub url: Option<String>,
    pub theme: Option<String>,
}

/// One pane of the layout, in canvas pixels.
#[derive(Debug, Clone)]
pub struct Pane {
    pub id: String,
    pub kind: PaneKind,
    pub x: u32,
    pub y: u32,
    pub width: u32,
    pub height: u32,
    pub font_family: Option<String>,
    pub font_size: Option<u32>,
    pub url: Option<String>,
    pub theme: Option<String>,
    pub ignore_speed: bool,
}

/// The canvas and its panes.
#[derive(Debug, Clone)]
pub struct Layout {
    pub width: u32,
    pub height: u32,
    pub fps: u32,
    pub background: Option<String>,
    pub font_family: Option<String>,
    pub font_size: Option<u32>,
    pub panes: Vec<Pane>,
}

/// A score's `[demo]` table.
#[derive(Debug, Clone)]
pub struct DemoMeta {
    pub name: String,
    pub output_dir: String,
    pub prompt: Option<String>,
    pub speed: Option<String>,
    pub targets: Option<Vec<String>>,
}

/// A demo score.
#[derive(Debug, Clone)]
pub struct Score {
    pub demo: DemoMeta,
    pub sources: Vec<Source>,
    pub layout: Layout,
    pub timeline: Vec<Step>,
}

/// Index of the first pane of `panes` with id `id`.
#[verifier::opaque]
pub open spec fn first_pane_index(panes: Seq<Pane>, id: Seq<char>) -> Option<int> {
    if exists|i: int| 0 <= i < panes.len() && (#[trigger] panes[i]).id@ == id {
        Some(
            choose|i: int|
                0 <= i < panes.len() && panes[i].id@ == id && forall|j: int|
                    0 <= j < i ==> (#[trigger] panes[j]).id@ != id,
        )
    } else {
        None
    }
}

/// Index of the first source of `sources` with id `id`.
#[verifier::opaque]
pub open spec fn first_source_index(sources: Seq<Source>, id: Seq<char>) -> Option<int> {
    if exists|i: int| 0 <= i < sources.len() && (#[trigger] sources[i]).id@ == id {
        Some(
            choose|i: int|
                0 <= i < sources.len() && sources[i].id@ == id && forall|j: int|
                    0 <= j < i ==> (#[trigger] sources[j]).id@ != id,
        )
    } else {
        None
    }
}

/// The first of `sources` with id `id`.
pub fn find_source<'a>(sources: &'a [Source], id: &str) -> (r: Option<&'a Source>)
    ensures
        match first_source_index(sources@, id@) {
            Some(i) => r == Some(&sources@[i]),
            None => r.is_none(),
        },
{
    let want = chars_of(id);
    let mut i: usize = 0;
    while i < sources.len()
        invariant
            0 <= i <= sources@.len(),
            want@ == id@,
            forall|j: int| 0 <= j < i ==> (#[trigger] sources@[j]).id@ != id@,
        decreases sources@.len() - i,
    {
        let have = chars_of(sources[i].id.as_str());
        if seq_eq(&have, &want) {
            proof {
                reveal(first_source_index);
                let srcs = sources@;
                assert(srcs[i as int].id@ == id@);
                let k = choose|k: int|
                    0 <= k < srcs.len() && srcs[k].id@ == id@ && forall|j: int|
                        0 <= j < k ==> (#[trigger] srcs[j]).id@ != id@;
                if k < i {
                } else if k > i {
                }
                assert(k == i);
            }
            return Some(&sources[i]);
        }
        i += 1;
    }
    proof {
        reveal(first_source_index);
    }
    None
}

impl Score {
    /// The first source with id `id`.
    pub fn source(&self, id: &str) -> (r: Option<&Source>)
        ensures
            match first_source_index(self.sources@, id@) {
                Some(i) => r == Some(&self.sources@[i]),
                None => r.is_none(),
            },
    {
        find_source(self.sources.as_slice(), id)
    }

    /// The first layout pane with id `id`.
    pub fn pane(&self, id: &str) -> (r: Option<&Pane>)
        ensures
            match first_pane_index(self.layout.panes@, id@) {
                Some(i) => r == Some(&self.layout.panes@[i]),
                None => r.is_none(),
            },
    {
        let want = chars_of(id);
        let mut i: usize = 0;
        while i < self.layout.panes.len()
            invariant
                0 <= i <= self.layout.panes@.len(),
                want@ == id@,
                forall|j: int| 0 <= j < i ==> (#[trigger] self.layout.panes@[j]).id@ != id@,
            decreases self.layout.panes@.len() - i,
        {
            let have = chars_of(self.layout.panes[i].id.as_str());
            if seq_eq(&have, &want) {
                proof {
                    reveal(first_pane_index);
                    let panes = self.layout.panes@;
                    assert(panes[i as int].id@ == id@);
                    let k = choose|k: int|
                        0 <= k < panes.len() && panes[k].id@ == id@ && forall|j: int|
                            0 <= j < k ==> (#[trigger] panes[j]).id@ != id@;
                    if k < i {
                    } else if k > i {
                    }
                    assert(k == i);
                }
                return Some(&self.layout.panes[i]);
            }
            i += 1;
        }
        proof {
            reveal(first_pane_index);
        }
        None
    }
}

} // verus!
