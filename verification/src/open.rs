//! `demo open`'s decisions: the URL a typed address stands for, the reveal the
//! flags or the wizard's answers ask for, and the line that confirms it.

use vstd::prelude::*;
use crate::cli::{OpenArgs, OpenMode};
use crate::model::opt_str;
use crate::text::{
    chars_of, contains, contains_seq, debug_quoted, debug_str, decimal, decimal_string, push_chars,
    push_str, slice_of, starts_with, string_of, trim, trim_bounds,
};

verus! {

broadcast use vstd::string::group_string_axioms;

/// The URL a typed address stands for: trimmed, kept as is when it has a
/// scheme (`://`), `http://` before a local host, `https://` before anything
/// else.
pub open spec fn normalize_url_spec(url: Seq<char>) -> Seq<char> {
    let u = trim(url);
    if contains_seq(u, "://"@) {
        u
    } else if "localhost"@.is_prefix_of(u) || "127.0.0.1"@.is_prefix_of(u) {
        "http://"@ + u
    } else {
        "https://"@ + u
    }
}

/// The characters of `s`, whitespace trimmed from both ends.
fn trimmed(s: &str) -> (r: Vec<char>)
    ensures
        r@ == trim(s@),
{
    let v = chars_of(s);
    let (a, b) = trim_bounds(&v);
    slice_of(&v, a, b)
}

/// Ensures a URL has a scheme: bare domains get `https://`, a local host
/// `http://` (see `normalize_url_spec`).
pub fn normalize_url(url: &str) -> (r: String)
    ensures
        r@ == normalize_url_spec(url@),
{
    let u = trimmed(url);
    let sep = chars_of("://");
    let localhost = chars_of("localhost");
    let loopback = chars_of("127.0.0.1");
    let mut r = String::new();
    if contains(&u, &sep) {
        push_chars(&mut r, &u);
    } else if starts_with(&u, &localhost) || starts_with(&u, &loopback) {
        push_str(&mut r, "http://");
        push_chars(&mut r, &u);
    } else {
        push_str(&mut r, "https://");
        push_chars(&mut r, &u);
    }
    r
}

/// A resolved reveal request: where, how, and when to open a page.
#[derive(Debug, Clone)]
pub struct Reveal {
    pub url: String,
    pub name: Option<String>,
    pub mode: String,
    /// Defer until this substring appears in the output.
    pub when: Option<String>,
    /// Defer until the current foreground command finishes.
    pub after: bool,
    pub hold_ms: Option<u64>,
    pub scroll: bool,
    /// Open a headed browser, navigate live, and record until the window closes.
    pub view: bool,
    /// Emulated colour scheme (`light`/`dark`), or `None` for the page default.
    pub theme: Option<String>,
}

/// `split` when the flags ask for it either way, else `replace`.
pub open spec fn mode_spec(split: bool, mode: OpenMode) -> Seq<char> {
    if split || mode == OpenMode::Split {
        "split"@
    } else {
        "replace"@
    }
}

/// The placement the flags ask for (see `mode_spec`).
pub fn mode_name(args: &OpenArgs) -> (r: String)
    ensures
        r@ == mode_spec(args.split, args.mode),
{
    let mut r = String::new();
    if args.split || args.mode == OpenMode::Split {
        push_str(&mut r, "split");
    } else {
        push_str(&mut r, "replace");
    }
    r
}

/// The reveal the flags describe, when they name a URL and do not ask for the
/// wizard; `None` means the wizard decides.
pub fn resolve_flags(args: &OpenArgs) -> (r: Option<Reveal>)
    ensures
        match args.url {
            Some(u) if !args.wizard => match r {
                Some(rv) => {
                    &&& rv.url@ == normalize_url_spec(u@)
                    &&& rv.name.is_none()
                    &&& rv.mode@ == mode_spec(args.split, args.mode)
                    &&& opt_str(rv.when) == opt_str(args.when)
                    &&& rv.after == args.after
                    &&& rv.hold_ms == args.hold
                    &&& rv.scroll == args.scroll
                    &&& rv.view == args.view
                    &&& opt_str(rv.theme) == opt_str(args.theme)
                },
                None => false,
            },
            _ => r.is_none(),
        },
{
    match &args.url {
        Some(u) => {
            if args.wizard {
                return None;
            }
            Some(
                Reveal {
                    url: normalize_url(u.as_str()),
                    name: None,
                    mode: mode_name(args),
                    when: match &args.when {
                        Some(w) => Some(w.clone()),
                        None => None,
                    },
                    after: args.after,
                    hold_ms: args.hold,
                    scroll: args.scroll,
                    view: args.view,
                    theme: match &args.theme {
                        Some(t) => Some(t.clone()),
                        None => None,
                    },
                },
            )
        },
        None => None,
    }
}

/// How the wizard shows a page.
#[derive(Debug, Clone, Copy, PartialEq, Eq, Structural)]
pub enum Behavior {
    /// Hold it for a few seconds.
    Static,
    /// Scroll the page down.
    Scroll,
    /// Open a real browser and record it until it closes.
    Interactive,
}

/// When the wizard's reveal happens.
#[derive(Debug, Clone, Copy, PartialEq, Eq, Structural)]
pub enum Trigger {
    Now,
    /// When the current command finishes.
    AfterCommand,
    /// When a line of the output contains the cue.
    OnLine,
}

/// The wizard's answers, put together as a reveal: the URL normalized, the
/// scene name trimmed; an interactive view replaces the frame at once with
/// nothing deferred; otherwise the placement, the hold (static only), the
/// scroll and the trigger as answered, where an empty cue defers nothing.
pub fn wizard_reveal(
    url: &str,
    scene_name: &str,
    theme: Option<String>,
    behavior: Behavior,
    hold_ms: Option<u64>,
    split: bool,
    trigger: Trigger,
    cue: &str,
) -> (r: Reveal)
    ensures
        r.url@ == normalize_url_spec(trim(url@)),
        r.name matches Some(n) && n@ == trim(scene_name@),
        r.theme == theme,
        r.view == (behavior == Behavior::Interactive),
        behavior == Behavior::Interactive ==> {
            &&& r.mode@ == "replace"@
            &&& r.when.is_none()
            &&& !r.after
            &&& r.hold_ms.is_none()
            &&& !r.scroll
        },
        behavior != Behavior::Interactive ==> {
            &&& r.mode@ == (if split {
                "split"@
            } else {
                "replace"@
            })
            &&& r.scroll == (behavior == Behavior::Scroll)
            &&& r.hold_ms == (if behavior == Behavior::Static {
                hold_ms
            } else {
                None
            })
            &&& r.after == (trigger == Trigger::AfterCommand)
            &&& opt_str(r.when) == (if trigger == Trigger::OnLine && trim(cue@).len() > 0 {
                Some(trim(cue@))
            } else {
                None
            })
        },
{
    let u = trimmed(url);
    let us = string_of(&u);
    let url = normalize_url(us.as_str());
    let nv = trimmed(scene_name);
    let name = Some(string_of(&nv));
    if behavior == Behavior::Interactive {
        let mut mode = String::new();
        push_str(&mut mode, "replace");
        return Reveal {
            url,
            name,
            mode,
            when: None,
            after: false,
            hold_ms: None,
            scroll: false,
            view: true,
            theme,
        };
    }
    let mut mode = String::new();
    if split {
        push_str(&mut mode, "split");
    } else {
        push_str(&mut mode, "replace");
    }
    let (when, after) = match trigger {
        Trigger::AfterCommand => (None, true),
        Trigger::OnLine => {
            let c = trimmed(cue);
            if c.len() > 0 {
                (Some(string_of(&c)), false)
            } else {
                (None, false)
            }
        },
        Trigger::Now => (None, false),
    };
    let hold = if behavior == Behavior::Static {
        hold_ms
    } else {
        None
    };
    Reveal {
        url,
        name,
        mode,
        when,
        after,
        hold_ms: hold,
        scroll: behavior == Behavior::Scroll,
        view: false,
        theme,
    }
}

/// How a reveal is presented: its placement, then `scrolling` or its hold.
pub open spec fn how_spec(mode: Seq<char>, scroll: bool, hold_ms: Option<u64>) -> Seq<char> {
    if scroll {
        mode + ", scrolling"@
    } else {
        match hold_ms {
            Some(ms) => mode + ", hold "@ + decimal(ms as nat) + "ms"@,
            None => mode,
        }
    }
}

/// The line that confirms a reveal before it is signalled.
pub open spec fn confirmation_spec(r: Reveal) -> Seq<char> {
    let how = how_spec(r.mode@, r.scroll, r.hold_ms);
    match r.when {
        Some(pat) => "● will open "@ + r.url@ + " ("@ + how + ") when output matches "@
            + debug_quoted(pat@),
        None => if r.after {
            "● will open "@ + r.url@ + " ("@ + how + ") when the current command finishes"@
        } else {
            "● opening "@ + r.url@ + " ("@ + how + ")"@
        },
    }
}

/// The line that confirms a reveal (see `confirmation_spec`).
pub fn confirmation(r: &Reveal) -> (line: String)
    ensures
        line@ == confirmation_spec(*r),
{
    let mut how = String::new();
    push_str(&mut how, r.mode.as_str());
    if r.scroll {
        push_str(&mut how, ", scrolling");
    } else if let Some(ms) = r.hold_ms {
        push_str(&mut how, ", hold ");
        let d = decimal_string(ms);
        push_str(&mut how, d.as_str());
        push_str(&mut how, "ms");
    }
    let mut line = String::new();
    match &r.when {
        Some(pat) => {
            push_str(&mut line, "● will open ");
            push_str(&mut line, r.url.as_str());
            push_str(&mut line, " (");
            push_str(&mut line, how.as_str());
            push_str(&mut line, ") when output matches ");
            let q = debug_str(pat.as_str());
            push_str(&mut line, q.as_str());
        },
        None => {
            if r.after {
                push_str(&mut line, "● will open ");
                push_str(&mut line, r.url.as_str());
                push_str(&mut line, " (");
                push_str(&mut line, how.as_str());
                push_str(&mut line, ") when the current command finishes");
            } else {
                push_str(&mut line, "● opening ");
                push_str(&mut line, r.url.as_str());
                push_str(&mut line, " (");
                push_str(&mut line, how.as_str());
                push_str(&mut line, ")");
            }
        },
    }
    line
}

} // verus!
