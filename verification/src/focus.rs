//! Naming the sources of a live capture for `demo focus`.

use vstd::prelude::*;
use crate::cli::FocusArgs;
use crate::error::Error;
use crate::model::{
    copy_opt_str, find_source, first_source_index, opt_str, reveal_pane_view, RevealPane, Source,
    SourceKind,
};
use crate::text::{chars_of, join, push_str, seq_eq};

verus! {

broadcast use vstd::string::group_string_axioms;

/// `main` and `terminal` both name the capture's terminal.
pub open spec fn is_terminal_id_spec(id: Seq<char>) -> bool {
    id == "main"@ || id == "terminal"@
}

/// Whether `id` names the terminal (exactly `main` or `terminal`).
pub fn is_terminal_id(id: &str) -> (r: bool)
    ensures
        r == is_terminal_id_spec(id@),
{
    let v = chars_of(id);
    let main = chars_of("main");
    let terminal = chars_of("terminal");
    seq_eq(&v, &main) || seq_eq(&v, &terminal)
}

/// The ids of `sources`, in order.
pub open spec fn source_ids(sources: Seq<Source>) -> Seq<Seq<char>> {
    sources.map_values(|s: Source| s.id@)
}

/// The hint listing the capture's sources after an unknown-source error:
/// ` (sources: a, b)`, or nothing when there are none.
pub open spec fn source_hint_spec(sources: Seq<Source>) -> Seq<char> {
    if sources.len() == 0 {
        seq![]
    } else {
        " (sources: "@ + join(source_ids(sources), ", "@) + ")"@
    }
}

/// The hint listing the capture's sources (empty when there are none).
pub fn source_hint(sources: &[Source]) -> (r: String)
    ensures
        r@ == source_hint_spec(sources@),
{
    let mut r = String::new();
    if sources.len() == 0 {
        return r;
    }
    push_str(&mut r, " (sources: ");
    let ghost ids = source_ids(sources@);
    let ghost head = r@;
    let mut k: usize = 0;
    while k < sources.len()
        invariant
            0 <= k <= sources@.len(),
            ids == source_ids(sources@),
            r@ == head + join(ids.take(k as int), ", "@),
        decreases sources@.len() - k,
    {
        if k > 0 {
            push_str(&mut r, ", ");
        }
        push_str(&mut r, sources[k].id.as_str());
        proof {
            let t = ids.take(k + 1);
            assert(t.drop_last() =~= ids.take(k as int));
            assert(t.last() == sources@[k as int].id@);
            if k == 0 {
                assert(ids.take(0) =~= Seq::<Seq<char>>::empty());
            }
        }
        k += 1;
    }
    assert(ids.take(k as int) =~= ids);
    push_str(&mut r, ")");
    r
}


/// The layout `--vertical` asks for: `vertical`, else `horizontal`.
pub open spec fn orientation_spec(vertical: bool) -> Seq<char> {
    if vertical {
        "vertical"@
    } else {
        "horizontal"@
    }
}

/// `--vertical`/`--horizontal` → the orientation (horizontal by default).
pub fn orientation_flag(args: &FocusArgs) -> (r: String)
    ensures
        r@ == orientation_spec(args.vertical),
{
    let mut r = String::new();
    if args.vertical {
        push_str(&mut r, "vertical");
    } else {
        push_str(&mut r, "horizontal");
    }
    r
}

/// The terminal as a reveal pane.
pub open spec fn terminal_view() -> (Seq<char>, Option<Seq<char>>, Option<Seq<char>>) {
    ("main"@, None, None)
}

/// The pane `id` reveals: the terminal for `main`/`terminal` and for a
/// terminal source; a browser source with its URL and its theme (the override
/// first); `None` for an id no source has.
pub open spec fn resolve_pane_spec(
    id: Seq<char>,
    sources: Seq<Source>,
    theme_override: Option<Seq<char>>,
) -> Option<(Seq<char>, Option<Seq<char>>, Option<Seq<char>>)> {
    if is_terminal_id_spec(id) {
        Some(terminal_view())
    } else {
        match first_source_index(sources, id) {
            Some(i) => if sources[i].kind == SourceKind::Browser {
                Some(
                    (
                        sources[i].id@,
                        opt_str(sources[i].url),
                        match theme_override {
                            Some(t) => Some(t),
                            None => opt_str(sources[i].theme),
                        },
                    ),
                )
            } else {
                Some(terminal_view())
            },
            None => None,
        }
    }
}

/// The error for an id no source has.
pub open spec fn unknown_source_msg(id: Seq<char>, sources: Seq<Source>) -> Seq<char> {
    "unknown source '"@ + id
        + "' — configure it in `demo capture`, or use `demo open <url>` for an ad-hoc page"@
        + source_hint_spec(sources)
}

/// The view of an optional `&str`.
pub open spec fn opt_str_ref(o: Option<&str>) -> Option<Seq<char>> {
    match o {
        Some(s) => Some(s@),
        None => None,
    }
}

/// Resolves a source id to the pane it reveals (see `resolve_pane_spec`).
pub fn resolve_pane(id: &str, sources: &[Source], theme_override: Option<&str>) -> (r: Result<
    RevealPane,
    Error,
>)
    ensures
        match r {
            Ok(p) => resolve_pane_spec(id@, sources@, opt_str_ref(theme_override)) == Some(
                reveal_pane_view(p),
            ),
            Err(e) => resolve_pane_spec(id@, sources@, opt_str_ref(theme_override)).is_none()
                && e.export_text() == Some(unknown_source_msg(id@, sources@)),
        },
{
    if is_terminal_id(id) {
        return Ok(RevealPane::terminal());
    }
    match find_source(sources, id) {
        Some(s) => {
            if s.kind == SourceKind::Browser {
                let theme = match theme_override {
                    Some(t) => {
                        let mut x = String::new();
                        push_str(&mut x, t);
                        Some(x)
                    },
                    None => copy_opt_str(&s.theme),
                };
                Ok(RevealPane { id: s.id.clone(), url: copy_opt_str(&s.url), theme })
            } else {
                Ok(RevealPane::terminal())
            }
        },
        None => {
            let mut m = String::new();
            push_str(&mut m, "unknown source '");
            push_str(&mut m, id);
            push_str(
                &mut m,
                "' — configure it in `demo capture`, or use `demo open <url>` for an ad-hoc page",
            );
            let hint = source_hint(sources);
            push_str(&mut m, hint.as_str());
            Err(Error::Export(m))
        },
    }
}

/// The ids whose panes a focus reveals: a single non-terminal source shown
/// beside the terminal when `split_with_main`, else the chosen ids.
pub open spec fn focus_ids(chosen: Seq<Seq<char>>, split_with_main: bool) -> Seq<Seq<char>> {
    if chosen.len() == 1 && split_with_main && !is_terminal_id_spec(chosen[0]) {
        seq!["main"@, chosen[0]]
    } else {
        chosen
    }
}

/// The views of `chosen` as strings.
pub open spec fn string_views(chosen: Seq<String>) -> Seq<Seq<char>> {
    chosen.map_values(|s: String| s@)
}

/// Builds the reveal panes of the chosen source ids (see `focus_ids`); the
/// first unknown id fails the whole focus.
pub fn build_panes(
    chosen: &[String],
    split_with_main: bool,
    sources: &[Source],
    theme_override: Option<&str>,
) -> (r: Result<Vec<RevealPane>, Error>)
    ensures
        ({
            let ids = focus_ids(string_views(chosen@), split_with_main);
            match r {
                Ok(panes) => panes@.len() == ids.len() && forall|k: int|
                    0 <= k < ids.len() ==> resolve_pane_spec(
                        ids[k],
                        sources@,
                        opt_str_ref(theme_override),
                    ) == Some(reveal_pane_view(#[trigger] panes@[k])),
                Err(e) => exists|k: int|
                    0 <= k < ids.len() && resolve_pane_spec(
                        #[trigger] ids[k],
                        sources@,
                        opt_str_ref(theme_override),
                    ).is_none() && e.export_text() == Some(unknown_source_msg(ids[k], sources@))
                        && forall|j: int|
                        0 <= j < k ==> resolve_pane_spec(
                            ids[j],
                            sources@,
                            opt_str_ref(theme_override),
                        ).is_some(),
            }
        }),
{
    let ghost ids = focus_ids(string_views(chosen@), split_with_main);
    if chosen.len() == 1 && split_with_main && !is_terminal_id(chosen[0].as_str()) {
        let first = resolve_pane("main", sources, theme_override);
        let first = match first {
            Ok(p) => p,
            Err(e) => {
                proof {
                    reveal_strlit("main");
                }
                return Err(e);
            },
        };
        proof {
            reveal_strlit("main");
        }
        let second = match resolve_pane(chosen[0].as_str(), sources, theme_override) {
            Ok(p) => p,
            Err(e) => {
                assert(ids[1] == chosen@[0]@);
                return Err(e);
            },
        };
        let mut v: Vec<RevealPane> = Vec::new();
        v.push(first);
        v.push(second);
        assert(ids[0] == "main"@ && ids[1] == chosen@[0]@);
        return Ok(v);
    }
    let mut v: Vec<RevealPane> = Vec::new();
    let mut k: usize = 0;
    while k < chosen.len()
        invariant
            0 <= k <= chosen@.len(),
            ids == string_views(chosen@),
            v@.len() == k,
            forall|j: int|
                0 <= j < k ==> resolve_pane_spec(ids[j], sources@, opt_str_ref(theme_override))
                    == Some(reveal_pane_view(#[trigger] v@[j])),
        decreases chosen@.len() - k,
    {
        match resolve_pane(chosen[k].as_str(), sources, theme_override) {
            Ok(p) => {
                v.push(p);
            },
            Err(e) => {
                assert(ids[k as int] == chosen@[k as int]@);
                assert forall|j: int| 0 <= j < k implies resolve_pane_spec(
                    ids[j],
                    sources@,
                    opt_str_ref(theme_override),
                ).is_some() by {
                    assert(resolve_pane_spec(ids[j], sources@, opt_str_ref(theme_override)) == Some(
                        reveal_pane_view(v@[j]),
                    ));
                }
                return Err(e);
            },
        }
        k += 1;
    }
    Ok(v)
}
} // verus!
