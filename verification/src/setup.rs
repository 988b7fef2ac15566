//! The choices `demo capture` settles before the shell starts: the captured
//! shell's prompt, the export canvas, the font, the frame rate and the browser
//! sources. Flags decide
//! first; without them an interactive run asks a short wizard, whose answers
//! come back here to be turned into the same values.

use vstd::prelude::*;
use crate::canvas::{
    canvas_from_aspect_quality, canvas_spec, fps_allowed, invalid_aspect_msg, invalid_quality_msg,
    parse_resolution, resolution_spec, DEFAULT_FPS,
};
use crate::cli::CaptureArgs;
use crate::error::{export_outcome, Error};
use crate::fonts::DEFAULT_FONT;
use crate::model::{Source, SourceKind};
use crate::shell::{colored, colored_spec, default_prompt, default_prompt_spec, ps1_escape, ps1_text};
use crate::text::{chars_of, decimal, decimal_string, lower, push_str, string_of, slice_of, trim, trim_bounds};

verus! {

broadcast use vstd::string::group_string_axioms;

// ---------------------------------------------------------------------------
// Prompt
// ---------------------------------------------------------------------------

/// The prompt the flags alone decide, as `(force_prompt, ps1)`:
/// `--keep-prompt` keeps the shell's own (reporting the default), `--prompt`
/// forces the given one; with neither the wizard is asked (`None`).
pub fn prompt_from_flags(args: &CaptureArgs, shell: &str) -> (r: Option<(bool, String)>)
    ensures
        args.keep_prompt ==> (r matches Some((force, ps1)) && !force && ps1@ == default_prompt_spec(
            shell@,
        )),
        !args.keep_prompt ==> match args.prompt {
            Some(p) => r matches Some((force, ps1)) && force && ps1@ == p@,
            None => r is None,
        },
{
    if args.keep_prompt {
        return Some((false, default_prompt(shell)));
    }
    match &args.prompt {
        Some(p) => Some((true, p.clone())),
        None => None,
    }
}

/// The prompt styles the wizard offers.
#[derive(Debug, Clone, Copy, PartialEq, Eq, Structural)]
pub enum PromptStyle {
    /// `user@host:~$`
    Linux,
    /// `user@host ~ %`
    MacOs,
    /// `PS path>`
    PowerShell,
    /// `❯`
    Minimal,
    /// The shell's real prompt.
    Keep,
}

/// The one text a style asks for, as `(question, default)`.
pub open spec fn style_question_spec(style: PromptStyle) -> Option<(Seq<char>, Seq<char>)> {
    match style {
        PromptStyle::Linux => Some(("Text (user@host):"@, "user@demo"@)),
        PromptStyle::MacOs => Some(("Text (user@host):"@, "user@mac"@)),
        PromptStyle::PowerShell => Some(("Path:"@, "C:\\Users\\demo"@)),
        PromptStyle::Minimal => Some(("Symbol:"@, "❯"@)),
        PromptStyle::Keep => None,
    }
}

/// The question a style asks and its default answer; `Keep` asks nothing.
pub fn style_question(style: PromptStyle) -> (r: Option<(&'static str, &'static str)>)
    ensures
        match r {
            Some((q, d)) => style_question_spec(style) == Some((q@, d@)),
            None => style_question_spec(style).is_none(),
        },
{
    match style {
        PromptStyle::Linux => Some(("Text (user@host):", "user@demo")),
        PromptStyle::MacOs => Some(("Text (user@host):", "user@mac")),
        PromptStyle::PowerShell => Some(("Path:", "C:\\Users\\demo")),
        PromptStyle::Minimal => Some(("Symbol:", "❯")),
        PromptStyle::Keep => None,
    }
}

/// A wizard answer trimmed; a blank one keeps the default.
pub open spec fn answer_spec(answer: Seq<char>, default: Seq<char>) -> Seq<char> {
    if trim(answer).len() == 0 {
        default
    } else {
        trim(answer)
    }
}

/// A wizard answer trimmed, or the default when it is blank.
pub fn wizard_answer(answer: &str, default: &str) -> (r: String)
    ensures
        r@ == answer_spec(answer@, default@),
{
    let v = chars_of(answer);
    let (a, b) = trim_bounds(&v);
    if a == b {
        let mut d = String::new();
        push_str(&mut d, default);
        assert(d@ =~= default@);
        d
    } else {
        let t = slice_of(&v, a, b);
        string_of(&t)
    }
}

/// The prompt a style builds around the (escaped) label, as
/// `(force_prompt, ps1)`; `Keep` keeps the shell's own.
pub open spec fn styled_prompt_spec(style: PromptStyle, label: Seq<char>, shell: Seq<char>) -> (
    bool,
    Seq<char>,
) {
    let l = ps1_escape(label);
    match style {
        PromptStyle::Linux => (
            true,
            colored_spec(shell, "1;32"@, "green"@, l) + ":"@ + colored_spec(
                shell,
                "1;34"@,
                "blue"@,
                "~"@,
            ) + "$ "@,
        ),
        PromptStyle::MacOs => (true, colored_spec(shell, "1;36"@, "cyan"@, l) + " ~ % "@),
        PromptStyle::PowerShell => (true, "PS "@ + colored_spec(shell, "1;36"@, "cyan"@, l) + "> "@),
        PromptStyle::Minimal => (true, colored_spec(shell, "1;32"@, "green"@, l) + " "@),
        PromptStyle::Keep => (false, default_prompt_spec(shell)),
    }
}

/// The prompt for a wizard style and its label text. The colours are fixed by
/// the style; the label is escaped for `PS1`.
pub fn styled_prompt(style: PromptStyle, label: &str, shell: &str) -> (r: (bool, String))
    ensures
        (r.0, r.1@) == styled_prompt_spec(style, label@, shell@),
{
    if style == PromptStyle::Keep {
        return (false, default_prompt(shell));
    }
    let l = ps1_text(label);
    let mut s = String::new();
    match style {
        PromptStyle::Linux => {
            let user = colored(shell, "1;32", "green", l.as_str());
            let path = colored(shell, "1;34", "blue", "~");
            push_str(&mut s, user.as_str());
            push_str(&mut s, ":");
            push_str(&mut s, path.as_str());
            push_str(&mut s, "$ ");
        },
        PromptStyle::MacOs => {
            let user = colored(shell, "1;36", "cyan", l.as_str());
            push_str(&mut s, user.as_str());
            push_str(&mut s, " ~ % ");
        },
        PromptStyle::PowerShell => {
            let path = colored(shell, "1;36", "cyan", l.as_str());
            push_str(&mut s, "PS ");
            push_str(&mut s, path.as_str());
            push_str(&mut s, "> ");
        },
        _ => {
            let sym = colored(shell, "1;32", "green", l.as_str());
            push_str(&mut s, sym.as_str());
            push_str(&mut s, " ");
        },
    }
    assert(s@ =~= styled_prompt_spec(style, label@, shell@).1);
    (true, s)
}

// ---------------------------------------------------------------------------
// Canvas
// ---------------------------------------------------------------------------

/// What `--resolution` gives: the canvas, or the message it is refused with.
pub open spec fn resolution_outcome(s: Seq<char>) -> Result<Option<(u32, u32)>, Seq<char>> {
    match resolution_spec(s) {
        Some(x) => Ok(x),
        None => Err(
            "invalid resolution '"@ + s
                + "' — try a WxH pair (e.g. 1600x900) or auto; or use --aspect/--quality"@,
        ),
    }
}

/// What an aspect ratio and a quality give: the canvas, or the message they
/// are refused with (the aspect is checked first).
pub open spec fn aspect_outcome(aspect: Seq<char>, quality: Seq<char>) -> Result<
    Option<(u32, u32)>,
    Seq<char>,
> {
    match canvas_spec(aspect, quality) {
        Some(wh) => Ok(Some(wh)),
        None => Err(
            if crate::canvas::aspect_spec(lower(trim(aspect))).is_none() {
                invalid_aspect_msg(aspect)
            } else {
                invalid_quality_msg(quality)
            },
        ),
    }
}

/// The canvas the flags decide: `--resolution` wins, else `--aspect` (at
/// `--quality`, full HD by default), else `--quality` at 16:9. Without any of
/// them a run that cannot ask keeps the terminal's own size (`Ok(None)`), and
/// an interactive one asks the wizard (`None`).
pub open spec fn canvas_flags_spec(
    resolution: Option<Seq<char>>,
    aspect: Option<Seq<char>>,
    quality: Option<Seq<char>>,
    interactive: bool,
) -> Option<Result<Option<(u32, u32)>, Seq<char>>> {
    match resolution {
        Some(r) => Some(resolution_outcome(r)),
        None => match aspect {
            Some(a) => Some(
                aspect_outcome(
                    a,
                    match quality {
                        Some(q) => q,
                        None => "fullhd"@,
                    },
                ),
            ),
            None => match quality {
                Some(q) => Some(aspect_outcome("16:9"@, q)),
                None => if interactive {
                    None
                } else {
                    Some(Ok(None))
                },
            },
        },
    }
}

/// The view of an optional string.
pub open spec fn opt_view(o: Option<String>) -> Option<Seq<char>> {
    match o {
        Some(s) => Some(s@),
        None => None,
    }
}

fn aspect_canvas(aspect: &str, quality: &str) -> (r: Result<Option<(u32, u32)>, Error>)
    ensures
        export_outcome(r) == Some(aspect_outcome(aspect@, quality@)),
{
    match canvas_from_aspect_quality(aspect, quality) {
        Ok(wh) => Ok(Some(wh)),
        Err(e) => Err(e),
    }
}

/// The export canvas from the flags; `None` when the wizard must be asked.
pub fn canvas_from_flags(args: &CaptureArgs, interactive: bool) -> (r: Option<
    Result<Option<(u32, u32)>, Error>,
>)
    ensures
        match r {
            Some(x) => canvas_flags_spec(
                opt_view(args.resolution),
                opt_view(args.aspect),
                opt_view(args.quality),
                interactive,
            ) == export_outcome(x) && export_outcome(x) is Some,
            None => canvas_flags_spec(
                opt_view(args.resolution),
                opt_view(args.aspect),
                opt_view(args.quality),
                interactive,
            ).is_none(),
        },
{
    if let Some(res) = &args.resolution {
        let r = parse_resolution(res.as_str());
        assert(export_outcome(r) == Some(resolution_outcome(res@)));
        return Some(r);
    }
    if let Some(a) = &args.aspect {
        let r = match &args.quality {
            Some(q) => aspect_canvas(a.as_str(), q.as_str()),
            None => aspect_canvas(a.as_str(), "fullhd"),
        };
        return Some(r);
    }
    if let Some(q) = &args.quality {
        return Some(aspect_canvas("16:9", q.as_str()));
    }
    if interactive {
        None
    } else {
        Some(Ok(None))
    }
}

/// An answer to the canvas wizard.
#[derive(Debug, Clone)]
pub enum CanvasAnswer {
    /// Derive the canvas from the terminal size.
    Auto,
    /// An exact `width` × `height`, as typed.
    Custom { width: String, height: String },
    /// One of the offered aspect ratios (`16:9`, …) at full HD or HD.
    Ratio { ratio: String, full_hd: bool },
}

/// The canvas a wizard answer gives: `Auto` none, `Custom` the typed
/// `WxH` (read as `--resolution` would read it), a ratio its canvas at the
/// chosen quality.
pub open spec fn canvas_answer_spec(a: CanvasAnswer) -> Result<Option<(u32, u32)>, Seq<char>> {
    match a {
        CanvasAnswer::Auto => Ok(None),
        CanvasAnswer::Custom { width, height } => resolution_outcome(
            trim(width@) + "x"@ + trim(height@),
        ),
        CanvasAnswer::Ratio { ratio, full_hd } => aspect_outcome(
            ratio@,
            if full_hd {
                "fullhd"@
            } else {
                "hd"@
            },
        ),
    }
}

/// The canvas a wizard answer gives.
pub fn canvas_from_answer(a: &CanvasAnswer) -> (r: Result<Option<(u32, u32)>, Error>)
    ensures
        export_outcome(r) == Some(canvas_answer_spec(*a)),
{
    match a {
        CanvasAnswer::Auto => Ok(None),
        CanvasAnswer::Custom { width, height } => {
            let wv = chars_of(width.as_str());
            let (wa, wb) = trim_bounds(&wv);
            let hv = chars_of(height.as_str());
            let (ha, hb) = trim_bounds(&hv);
            let mut s = string_of(&slice_of(&wv, wa, wb));
            push_str(&mut s, "x");
            let ht = string_of(&slice_of(&hv, ha, hb));
            push_str(&mut s, ht.as_str());
            parse_resolution(s.as_str())
        },
        CanvasAnswer::Ratio { ratio, full_hd } => {
            if *full_hd {
                aspect_canvas(ratio.as_str(), "fullhd")
            } else {
                aspect_canvas(ratio.as_str(), "hd")
            }
        },
    }
}

// ---------------------------------------------------------------------------
// Font and frame rate
// ---------------------------------------------------------------------------

/// The export font from the flags: `--font` as given, else the default font
/// when the run cannot ask; `None` when the wizard must be asked.
pub fn font_from_flags(args: &CaptureArgs, interactive: bool) -> (r: Option<String>)
    ensures
        match args.font {
            Some(f) => r matches Some(s) && s@ == f@,
            None => if interactive {
                r is None
            } else {
                r matches Some(s) && s@ == DEFAULT_FONT@
            },
        },
{
    match &args.font {
        Some(f) => Some(f.clone()),
        None => if interactive {
            None
        } else {
            let mut s = String::new();
            push_str(&mut s, DEFAULT_FONT);
            assert(s@ =~= DEFAULT_FONT@);
            Some(s)
        },
    }
}

/// A frame rate checked against the permitted ones.
pub open spec fn fps_outcome(n: u32) -> Result<u32, Seq<char>> {
    if fps_allowed(n) {
        Ok(n)
    } else {
        Err("unsupported fps "@ + decimal(n as nat) + " — try 15, 24, or 30"@)
    }
}

/// A frame rate given or picked, checked: 15, 24 and 30 pass.
pub fn checked_fps(n: u32) -> (r: Result<u32, Error>)
    ensures
        export_outcome(r) == Some(fps_outcome(n)),
{
    if n == 15 || n == 24 || n == 30 {
        Ok(n)
    } else {
        let mut m = String::new();
        push_str(&mut m, "unsupported fps ");
        let d = decimal_string(n as u64);
        push_str(&mut m, d.as_str());
        push_str(&mut m, " — try 15, 24, or 30");
        assert(m@ =~= "unsupported fps "@ + decimal(n as nat) + " — try 15, 24, or 30"@);
        Err(Error::Export(m))
    }
}

/// The frame rate from the flags: `--fps` checked, else the default when the
/// run cannot ask; `None` when the wizard must be asked.
pub fn fps_from_flags(args: &CaptureArgs, interactive: bool) -> (r: Option<Result<u32, Error>>)
    ensures
        match args.fps {
            Some(n) => r matches Some(x) && export_outcome(x) == Some(fps_outcome(n)),
            None => if interactive {
                r is None
            } else {
                r == Some(Ok::<u32, Error>(DEFAULT_FPS))
            },
        },
{
    match args.fps {
        Some(n) => Some(checked_fps(n)),
        None => if interactive {
            None
        } else {
            Some(Ok(DEFAULT_FPS))
        },
    }
}

// ---------------------------------------------------------------------------
// Browser sources
// ---------------------------------------------------------------------------

/// The sources a capture starts with once browser sources are wanted: the
/// terminal itself, as `main`.
pub fn initial_sources() -> (r: Vec<Source>)
    ensures
        r@.len() == 1,
        r@[0].id@ == "main"@,
        r@[0].kind == SourceKind::Terminal,
        r@[0].url.is_none() && r@[0].theme.is_none(),
{
    let mut id = String::new();
    push_str(&mut id, "main");
    assert(id@ =~= "main"@);
    let mut r: Vec<Source> = Vec::new();
    r.push(Source { id, kind: SourceKind::Terminal, url: None, theme: None });
    r
}

/// The page theme a browser source asks for.
#[derive(Debug, Clone, Copy, PartialEq, Eq, Structural)]
pub enum ThemeChoice {
    /// Whatever the page prefers.
    Page,
    Light,
    Dark,
}

/// A browser source from the wizard's answers: the id trimmed (a blank id ends
/// the wizard: `None`), its URL, and the theme (`light`/`dark`, or none).
pub fn wizard_source(id: &str, url: String, theme: ThemeChoice) -> (r: Option<Source>)
    ensures
        match r {
            None => trim(id@).len() == 0,
            Some(src) => {
                &&& trim(id@).len() > 0
                &&& src.id@ == trim(id@)
                &&& src.kind == SourceKind::Browser
                &&& src.url == Some(url)
                &&& src.theme.is_some() == (theme != ThemeChoice::Page)
                &&& (theme == ThemeChoice::Light ==> src.theme->0@ == "light"@)
                &&& (theme == ThemeChoice::Dark ==> src.theme->0@ == "dark"@)
            },
        },
{
    let v = chars_of(id);
    let (a, b) = trim_bounds(&v);
    if a == b {
        return None;
    }
    let t = slice_of(&v, a, b);
    let theme_name: Option<String> = match theme {
        ThemeChoice::Page => None,
        ThemeChoice::Light => {
            let mut s = String::new();
            push_str(&mut s, "light");
            assert(s@ =~= "light"@);
            Some(s)
        },
        ThemeChoice::Dark => {
            let mut s = String::new();
            push_str(&mut s, "dark");
            assert(s@ =~= "dark"@);
            Some(s)
        },
    };
    Some(Source { id: string_of(&t), kind: SourceKind::Browser, url: Some(url), theme: theme_name })
}

} // verus!
