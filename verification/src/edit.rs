//! The non-interactive part of `demo edit`: reading the marked list labels back
//! into timeline indices, and the one-line summaries the step list shows.

use vstd::prelude::*;
use crate::error::{export_outcome, Error};
use crate::model::{first_pane_index, PaneKind, Score, ScrollDirection, Step};
use crate::text::{
    before_first, before_first_end, chars_of, contains, contains_seq, extend_chars, replace_all,
    join_front, lemma_split_str_join, replace_all_spec, split_str, split_str_pieces, decimal, decimal_string, parse_uint, parse_uint_spec,
    debug_quoted, debug_str, push_char, push_str, slice_of, string_of, trim, trim_bounds, trim_start, trim_start_index,
};

verus! {

broadcast use vstd::string::group_string_axioms;

// ---------------------------------------------------------------------------
// Marked labels
// ---------------------------------------------------------------------------

/// The step number a list label (`"  3. wait 500ms"`) starts with: the text
/// before its first `.`, leading whitespace dropped, trimmed, read as a number.
pub open spec fn label_number(s: Seq<char>) -> Option<nat> {
    parse_uint_spec(trim(before_first(trim_start(s), seq!['.'])), usize::MAX as nat)
}

/// The timeline index a label selects in a timeline of `len` steps, if any.
pub open spec fn selected_index(s: Seq<char>, len: int) -> Option<int> {
    match label_number(s) {
        Some(n) => if n - 1 < len {
            Some(n - 1)
        } else {
            None
        },
        None => None,
    }
}

/// Strictly increasing indices.
pub open spec fn increasing(s: Seq<usize>) -> bool {
    forall|i: int, j: int| 0 <= i < j < s.len() ==> s[i] < s[j]
}

fn insert_index(v: &mut Vec<usize>, x: usize)
    requires
        increasing(old(v)@),
    ensures
        increasing(final(v)@),
        forall|y: usize| final(v)@.contains(y) <==> (old(v)@.contains(y) || y == x),
{
    let mut i: usize = 0;
    while i < v.len() && v[i] < x
        invariant
            0 <= i <= v@.len(),
            v@ == old(v)@,
            forall|j: int| 0 <= j < i ==> v@[j] < x,
        decreases v@.len() - i,
    {
        i += 1;
    }
    if i < v.len() && v[i] == x {
        return;
    }
    let ghost s = v@;
    v.insert(i, x);
    proof {
        let t = v@;
        assert(t =~= s.insert(i as int, x));
        assert forall|a: int, b: int| 0 <= a < b < t.len() implies t[a] < t[b] by {
            if b < i {
                assert(t[a] == s[a] && t[b] == s[b]);
            } else if b == i {
                assert(t[a] == s[a]);
            } else if a < i {
                assert(t[a] == s[a] && t[b] == s[b - 1]);
                assert(s[i as int] > x);
            } else if a == i {
                assert(t[b] == s[b - 1]);
                if b - 1 > i {
                    assert(s[i as int] < s[b - 1]);
                }
            } else {
                assert(t[a] == s[a - 1] && t[b] == s[b - 1]);
            }
        }
        assert forall|y: usize| t.contains(y) <==> (s.contains(y) || y == x) by {
            if t.contains(y) {
                let k = choose|k: int| 0 <= k < t.len() && t[k] == y;
                if k < i {
                    assert(s[k] == y);
                } else if k > i {
                    assert(s[k - 1] == y);
                }
            }
            if s.contains(y) {
                let k = choose|k: int| 0 <= k < s.len() && s[k] == y;
                if k < i {
                    assert(t[k] == y);
                } else {
                    assert(t[k + 1] == y);
                }
            }
            if y == x {
                assert(t[i as int] == y);
            }
        }
    }
}

/// The number a label starts with (see `label_number`).
fn label_value(s: &str) -> (r: Option<u64>)
    ensures
        match label_number(s@) {
            Some(n) => r == Some(n as u64),
            None => r.is_none(),
        },
{
    let v = chars_of(s);
    let a = trim_start_index(&v, 0);
    assert(v@.subrange(0, v@.len() as int) =~= v@);
    let rest = slice_of(&v, a, v.len());
    let dot: Vec<char> = vec!['.'];
    assert(dot@ == seq!['.']);
    let end = before_first_end(&rest, &dot);
    let head = slice_of(&rest, 0, end);
    let (x, y) = trim_bounds(&head);
    assert(head@.subrange(x as int, y as int) == trim(before_first(trim_start(s@), seq!['.'])));
    parse_uint(&head, x, y, usize::MAX as u64)
}

/// Map the marked labels back to timeline indices (from their `N.` prefix):
/// labels whose number is past the end of a `len`-step timeline are dropped,
/// and the result is sorted without repeats.
pub fn selection_indices(selected: &[String], len: usize) -> (r: Vec<usize>)
    requires
        forall|k: int| 0 <= k < selected@.len() ==> label_number(#[trigger] selected@[k]@) != Some(
            0nat,
        ),
    ensures
        increasing(r@),
        forall|i: usize|
            r@.contains(i) <==> exists|k: int|
                0 <= k < selected@.len() && selected_index(#[trigger] selected@[k]@, len as int)
                    == Some(i as int),
{
    let mut r: Vec<usize> = Vec::new();
    let mut k: usize = 0;
    while k < selected.len()
        invariant
            0 <= k <= selected@.len(),
            forall|k: int| 0 <= k < selected@.len() ==> label_number(#[trigger] selected@[k]@) != Some(
                0nat,
            ),
            increasing(r@),
            forall|i: usize|
                r@.contains(i) <==> exists|j: int|
                    0 <= j < k && selected_index(#[trigger] selected@[j]@, len as int) == Some(
                        i as int,
                    ),
        decreases selected@.len() - k,
    {
        let ghost before = r@;
        let s: &str = selected[k].as_str();
        match label_value(s) {
            Some(n) => {
                assert(label_number(selected@[k as int]@) != Some(0nat));
                if n - 1 < len as u64 {
                    let i: usize = (n - 1) as usize;
                    insert_index(&mut r, i);
                    proof {
                        assert(selected_index(selected@[k as int]@, len as int) == Some(i as int));
                        assert forall|y: usize| r@.contains(y) <==> exists|j: int|
                            0 <= j < k + 1 && selected_index(#[trigger] selected@[j]@, len as int)
                                == Some(y as int) by {
                            if y == i {
                                assert(selected_index(selected@[k as int]@, len as int) == Some(
                                    y as int,
                                ));
                            }
                            if exists|j: int|
                                0 <= j < k + 1 && selected_index(#[trigger] selected@[j]@, len as int)
                                    == Some(y as int) {
                                let j = choose|j: int|
                                    0 <= j < k + 1 && selected_index(
                                        #[trigger] selected@[j]@,
                                        len as int,
                                    ) == Some(y as int);
                                if j < k {
                                    assert(before.contains(y));
                                }
                            }
                        }
                    }
                } else {
                    proof {
                        assert(selected_index(selected@[k as int]@, len as int) == None::<int>);
                        assert forall|y: usize| r@.contains(y) <==> exists|j: int|
                            0 <= j < k + 1 && selected_index(#[trigger] selected@[j]@, len as int)
                                == Some(y as int) by {
                            if exists|j: int|
                                0 <= j < k + 1 && selected_index(#[trigger] selected@[j]@, len as int)
                                    == Some(y as int) {
                                let j = choose|j: int|
                                    0 <= j < k + 1 && selected_index(
                                        #[trigger] selected@[j]@,
                                        len as int,
                                    ) == Some(y as int);
                                assert(j < k);
                            }
                        }
                    }
                }
            },
            None => {
                proof {
                    assert(selected_index(selected@[k as int]@, len as int) == None::<int>);
                    assert forall|y: usize| r@.contains(y) <==> exists|j: int|
                        0 <= j < k + 1 && selected_index(#[trigger] selected@[j]@, len as int)
                            == Some(y as int) by {
                        if exists|j: int|
                            0 <= j < k + 1 && selected_index(#[trigger] selected@[j]@, len as int)
                                == Some(y as int) {
                            let j = choose|j: int|
                                0 <= j < k + 1 && selected_index(
                                    #[trigger] selected@[j]@,
                                    len as int,
                                ) == Some(y as int);
                            assert(j < k);
                        }
                    }
                }
            },
        }
        k += 1;
    }
    r
}

// ---------------------------------------------------------------------------
// Step summaries
// ---------------------------------------------------------------------------

/// `"1 step"`, or `"N steps"`.
pub open spec fn plural_spec(n: nat) -> Seq<char> {
    if n == 1 {
        "1 step"@
    } else {
        decimal(n) + " steps"@
    }
}

/// `"1 step"`, or `"N steps"`.
pub fn plural(n: usize) -> (r: String)
    ensures
        r@ == plural_spec(n as nat),
{
    if n == 1 {
        let mut s = String::new();
        push_str(&mut s, "1 step");
        s
    } else {
        let mut s = decimal_string(n as u64);
        push_str(&mut s, " steps");
        s
    }
}

/// The duration a wait-like step carries, offered as the default when the step
/// is converted (500 ms for the others).
pub open spec fn current_ms_spec(step: Step) -> u64 {
    match step {
        Step::Wait { duration_ms } => duration_ms,
        Step::WaitForQuiet { quiet_ms, .. } => quiet_ms,
        _ => 500,
    }
}

/// The duration a wait-like step carries (500 ms for the others).
pub fn current_ms(step: &Step) -> (r: u64)
    ensures
        r == current_ms_spec(*step),
{
    match step {
        Step::Wait { duration_ms } => *duration_ms,
        Step::WaitForQuiet { quiet_ms, .. } => *quiet_ms,
        _ => 500,
    }
}

/// A newline shown as `↵`.
pub open spec fn flat_char(c: char) -> char {
    if c == '\n' {
        '↵'
    } else {
        c
    }
}

/// One-line preview of free text: the first `n` characters with newlines shown
/// as `↵`, and `…` after them when the text was cut.
pub open spec fn preview_spec(text: Seq<char>, n: nat) -> Seq<char> {
    let cut = if text.len() > n {
        text.take(n as int)
    } else {
        text
    };
    let flat = cut.map_values(|c: char| flat_char(c));
    if text.len() > n {
        flat.push('…')
    } else {
        flat
    }
}

/// One-line preview of free text: the first `n` characters, newlines flattened,
/// with an ellipsis when cut.
pub fn preview(text: &str, n: usize) -> (r: String)
    ensures
        r@ == preview_spec(text@, n as nat),
{
    let v = chars_of(text);
    let mut r = String::new();
    let m: usize = if v.len() > n {
        n
    } else {
        v.len()
    };
    let mut i: usize = 0;
    while i < m
        invariant
            0 <= i <= m <= v@.len(),
            v@ == text@,
            m == (if v@.len() > n {
                n as int
            } else {
                v@.len() as int
            }),
            r@ == v@.take(i as int).map_values(|c: char| flat_char(c)),
        decreases m - i,
    {
        let c = v[i];
        if c == '\n' {
            push_char(&mut r, '↵');
        } else {
            push_char(&mut r, c);
        }
        assert(v@.take(i + 1).map_values(|c: char| flat_char(c)) =~= v@.take(i as int).map_values(
            |c: char| flat_char(c),
        ).push(flat_char(c)));
        i += 1;
    }
    proof {
        if v@.len() <= n {
            assert(v@.take(m as int) =~= v@);
        }
    }
    if v.len() > n {
        push_char(&mut r, '…');
    }
    r
}

/// How `{:?}` renders a scroll direction: its variant name.
pub open spec fn direction_name(d: ScrollDirection) -> Seq<char> {
    match d {
        ScrollDirection::Up => "Up"@,
        ScrollDirection::Down => "Down"@,
    }
}

/// The one-line summary of a step shown in the editor's list.
pub open spec fn step_summary_spec(step: Step) -> Seq<char> {
    match step {
        Step::Type { text, .. } => "type "@ + debug_quoted(preview_spec(text@, 60)),
        Step::Keypress { key } => "keypress "@ + key@,
        Step::Wait { duration_ms } => "wait "@ + decimal(duration_ms as nat) + "ms"@,
        Step::WaitForQuiet { quiet_ms, .. } => "wait_for_quiet "@ + decimal(quiet_ms as nat) + "ms"@,
        Step::WaitForScreen { pattern, .. } => "wait_for_screen "@ + debug_quoted(
            preview_spec(pattern@, 40),
        ),
        Step::WaitForStdout { pattern, .. } => "wait_for_stdout "@ + debug_quoted(
            preview_spec(pattern@, 40),
        ),
        Step::Focus { pane } => "focus → "@ + (match pane {
            Some(id) => id@,
            None => "?"@,
        }) + " (reveal)"@,
        Step::Caption { text } => "caption "@ + debug_quoted(preview_spec(text@, 60)),
        Step::Secret { prompt } => "secret "@ + debug_quoted(preview_spec(prompt@, 60)),
        Step::Scroll { direction, duration_ms, .. } => "scroll "@ + direction_name(direction) + " "@
            + decimal(duration_ms as nat) + "ms"@,
        Step::Terminate => "terminate"@,
    }
}

/// `label` followed by the quoted preview of `text` cut at `n` characters.
fn quoted_preview(label: &str, text: &str, n: usize) -> (r: String)
    ensures
        r@ == label@ + debug_quoted(preview_spec(text@, n as nat)),
{
    let p = preview(text, n);
    let q = debug_str(p.as_str());
    let mut s = String::new();
    push_str(&mut s, label);
    push_str(&mut s, q.as_str());
    s
}

/// `label`, the number `n`, then `ms`.
fn with_ms(label: &str, n: u64) -> (r: String)
    ensures
        r@ == label@ + decimal(n as nat) + "ms"@,
{
    let mut s = String::new();
    push_str(&mut s, label);
    let d = decimal_string(n);
    push_str(&mut s, d.as_str());
    push_str(&mut s, "ms");
    s
}

/// The one-line summary of a step shown in the editor's list.
pub fn step_summary(step: &Step) -> (r: String)
    ensures
        r@ == step_summary_spec(*step),
{
    match step {
        Step::Type { text, .. } => quoted_preview("type ", text.as_str(), 60),
        Step::Keypress { key } => {
            let mut s = String::new();
            push_str(&mut s, "keypress ");
            push_str(&mut s, key.as_str());
            s
        },
        Step::Wait { duration_ms } => with_ms("wait ", *duration_ms),
        Step::WaitForQuiet { quiet_ms, .. } => with_ms("wait_for_quiet ", *quiet_ms),
        Step::WaitForScreen { pattern, .. } => quoted_preview("wait_for_screen ", pattern.as_str(), 40),
        Step::WaitForStdout { pattern, .. } => quoted_preview("wait_for_stdout ", pattern.as_str(), 40),
        Step::Focus { pane } => {
            let mut s = String::new();
            push_str(&mut s, "focus → ");
            match pane {
                Some(id) => push_str(&mut s, id.as_str()),
                None => push_str(&mut s, "?"),
            }
            push_str(&mut s, " (reveal)");
            s
        },
        Step::Caption { text } => quoted_preview("caption ", text.as_str(), 60),
        Step::Secret { prompt } => quoted_preview("secret ", prompt.as_str(), 60),
        Step::Scroll { direction, duration_ms, .. } => {
            let mut s = String::new();
            push_str(&mut s, "scroll ");
            match direction {
                ScrollDirection::Up => push_str(&mut s, "Up"),
                ScrollDirection::Down => push_str(&mut s, "Down"),
            }
            push_str(&mut s, " ");
            let d = decimal_string(*duration_ms);
            push_str(&mut s, d.as_str());
            push_str(&mut s, "ms");
            s
        },
        Step::Terminate => {
            let mut s = String::new();
            push_str(&mut s, "terminate");
            s
        },
    }
}

// ---------------------------------------------------------------------------
// Browser reveals
// ---------------------------------------------------------------------------

/// Whether step `idx` of the timeline reveals a browser pane of the layout.
pub open spec fn is_browser_focus_spec(score: Score, idx: int) -> bool {
    &&& 0 <= idx < score.timeline@.len()
    &&& match score.timeline@[idx] {
        Step::Focus { pane: Some(id) } => match first_pane_index(score.layout.panes@, id@) {
            Some(i) => score.layout.panes@[i].kind == PaneKind::Browser,
            None => false,
        },
        _ => false,
    }
}

/// True when `idx` is a `focus` step targeting a browser layout pane.
pub fn is_browser_focus(score: &Score, idx: usize) -> (r: bool)
    ensures
        r == is_browser_focus_spec(*score, idx as int),
{
    if idx >= score.timeline.len() {
        return false;
    }
    match &score.timeline[idx] {
        Step::Focus { pane: Some(id) } => match score.pane(id.as_str()) {
            Some(p) => p.kind == PaneKind::Browser,
            None => false,
        },
        _ => false,
    }
}


// ---------------------------------------------------------------------------
// The action menu
// ---------------------------------------------------------------------------

/// An action the editor applies to every marked step.
#[derive(Debug, Clone, Copy, PartialEq, Eq, Structural)]
pub enum EditAction {
    Keep,
    EditReveal,
    EditKey,
    Insert,
    ToWait,
    WaitForQuiet,
    WaitForScreen,
    WaitForStdout,
    ChangeDuration,
    SplitType,
    ReplaceInTypes,
    Delete,
}

/// The menu offered for `n` marked steps, in order: the conversions, a plain
/// `wait` when an event wait is marked, the reveal editor for a single browser
/// focus, text editing when only `type` steps are marked (split/edit for one,
/// find & replace for several), key editing when only `keypress` steps are,
/// and insertion after a single step.
pub open spec fn action_menu_spec(
    n: nat,
    all_type: bool,
    all_keypress: bool,
    single_browser_focus: bool,
    has_event_wait: bool,
) -> Seq<EditAction> {
    let base = seq![
        EditAction::Keep,
        EditAction::WaitForQuiet,
        EditAction::WaitForScreen,
        EditAction::WaitForStdout,
        EditAction::ChangeDuration,
        EditAction::Delete,
    ];
    let with_wait = if has_event_wait {
        base.insert(1, EditAction::ToWait)
    } else {
        base
    };
    let with_reveal = if single_browser_focus {
        with_wait.insert(
            if has_event_wait {
                2int
            } else {
                1int
            },
            EditAction::EditReveal,
        )
    } else {
        with_wait
    };
    let with_text = if all_type {
        with_reveal.push(
            if n == 1 {
                EditAction::SplitType
            } else {
                EditAction::ReplaceInTypes
            },
        )
    } else {
        with_reveal
    };
    let with_key = if all_keypress {
        with_text.push(EditAction::EditKey)
    } else {
        with_text
    };
    if n == 1 {
        with_key.push(EditAction::Insert)
    } else {
        with_key
    }
}

/// The actions offered for `n` marked steps, in menu order.
pub fn action_menu(
    n: usize,
    all_type: bool,
    all_keypress: bool,
    single_browser_focus: bool,
    has_event_wait: bool,
) -> (r: Vec<EditAction>)
    ensures
        r@ == action_menu_spec(n as nat, all_type, all_keypress, single_browser_focus, has_event_wait),
{
    let mut opts = vec![
        EditAction::Keep,
        EditAction::WaitForQuiet,
        EditAction::WaitForScreen,
        EditAction::WaitForStdout,
        EditAction::ChangeDuration,
        EditAction::Delete,
    ];
    if has_event_wait {
        opts.insert(1, EditAction::ToWait);
    }
    if single_browser_focus {
        let pos: usize = if has_event_wait {
            2
        } else {
            1
        };
        opts.insert(pos, EditAction::EditReveal);
    }
    if all_type {
        if n == 1 {
            opts.push(EditAction::SplitType);
        } else {
            opts.push(EditAction::ReplaceInTypes);
        }
    }
    if all_keypress {
        opts.push(EditAction::EditKey);
    }
    if n == 1 {
        opts.push(EditAction::Insert);
    }
    opts
}

/// The menu text of an action.
pub open spec fn action_label_spec(a: EditAction) -> Seq<char> {
    match a {
        EditAction::Keep => "Keep as-is"@,
        EditAction::EditReveal => "Edit reveal (placement, scroll, file/URL)"@,
        EditAction::ToWait => "→ wait (fixed duration)"@,
        EditAction::WaitForQuiet => "→ wait_for_quiet (silence-based)"@,
        EditAction::WaitForScreen => "→ wait_for_screen (VT pattern)"@,
        EditAction::WaitForStdout => "→ wait_for_stdout (raw output pattern)"@,
        EditAction::ChangeDuration => "Change duration"@,
        EditAction::SplitType => "Split/Edit text"@,
        EditAction::ReplaceInTypes => "Find & replace in texts"@,
        EditAction::EditKey => "Edit key"@,
        EditAction::Insert => "Insert step after"@,
        EditAction::Delete => "Delete"@,
    }
}

/// The menu text of an action.
pub fn action_label(a: EditAction) -> (r: &'static str)
    ensures
        r@ == action_label_spec(a),
{
    match a {
        EditAction::Keep => "Keep as-is",
        EditAction::EditReveal => "Edit reveal (placement, scroll, file/URL)",
        EditAction::ToWait => "→ wait (fixed duration)",
        EditAction::WaitForQuiet => "→ wait_for_quiet (silence-based)",
        EditAction::WaitForScreen => "→ wait_for_screen (VT pattern)",
        EditAction::WaitForStdout => "→ wait_for_stdout (raw output pattern)",
        EditAction::ChangeDuration => "Change duration",
        EditAction::SplitType => "Split/Edit text",
        EditAction::ReplaceInTypes => "Find & replace in texts",
        EditAction::EditKey => "Edit key",
        EditAction::Insert => "Insert step after",
        EditAction::Delete => "Delete",
    }
}

/// The question the menu asks for `n` marked steps.
pub open spec fn action_prompt_spec(n: nat) -> Seq<char> {
    if n == 1 {
        "Action:"@
    } else {
        "Action for the "@ + decimal(n) + " marked steps:"@
    }
}

/// The question the menu asks for `n` marked steps.
pub fn action_prompt(n: usize) -> (r: String)
    ensures
        r@ == action_prompt_spec(n as nat),
{
    if n == 1 {
        let mut s = String::new();
        push_str(&mut s, "Action:");
        s
    } else {
        let mut s = String::new();
        push_str(&mut s, "Action for the ");
        let d = decimal_string(n as u64);
        push_str(&mut s, d.as_str());
        push_str(&mut s, " marked steps:");
        s
    }
}

// ---------------------------------------------------------------------------
// What the marked steps have in common
// ---------------------------------------------------------------------------

/// A wait that ends on an event rather than after a fixed time.
pub open spec fn is_event_wait(s: Step) -> bool {
    s is WaitForQuiet || s is WaitForScreen || s is WaitForStdout
}

/// Every index of `indices` is a position of `timeline`.
pub open spec fn in_timeline(indices: Seq<usize>, len: int) -> bool {
    forall|k: int| 0 <= k < indices.len() ==> indices[k] < len
}

/// What decides the menu for a marked group.
#[derive(Debug, Clone, Copy, PartialEq, Eq, Structural)]
pub struct Selection {
    /// Every marked step is a `type` step.
    pub all_type: bool,
    /// Every marked step is a `keypress` step.
    pub all_keypress: bool,
    /// Exactly one step is marked and it reveals a browser pane.
    pub single_browser_focus: bool,
    /// Some marked step is an event wait.
    pub has_event_wait: bool,
}

/// What the marked steps have in common.
pub fn selection_traits(score: &Score, indices: &[usize]) -> (r: Selection)
    requires
        in_timeline(indices@, score.timeline@.len() as int),
    ensures
        r.all_type == forall|k: int|
            0 <= k < indices@.len() ==> score.timeline@[#[trigger] indices@[k] as int] is Type,
        r.all_keypress == forall|k: int|
            0 <= k < indices@.len() ==> score.timeline@[#[trigger] indices@[k] as int] is Keypress,
        r.single_browser_focus == (indices@.len() == 1 && is_browser_focus_spec(
            *score,
            indices@[0] as int,
        )),
        r.has_event_wait == exists|k: int|
            0 <= k < indices@.len() && is_event_wait(score.timeline@[#[trigger] indices@[k] as int]),
{
    let mut all_type = true;
    let mut all_keypress = true;
    let mut has_event_wait = false;
    let mut k: usize = 0;
    while k < indices.len()
        invariant
            0 <= k <= indices@.len(),
            in_timeline(indices@, score.timeline@.len() as int),
            all_type == forall|m: int|
                0 <= m < k ==> score.timeline@[#[trigger] indices@[m] as int] is Type,
            all_keypress == forall|m: int|
                0 <= m < k ==> score.timeline@[#[trigger] indices@[m] as int] is Keypress,
            has_event_wait == exists|m: int|
                0 <= m < k && is_event_wait(score.timeline@[#[trigger] indices@[m] as int]),
        decreases indices@.len() - k,
    {
        let i = indices[k];
        match &score.timeline[i] {
            Step::Type { .. } => {
                all_keypress = false;
            },
            Step::Keypress { .. } => {
                all_type = false;
            },
            Step::WaitForQuiet { .. } | Step::WaitForScreen { .. } | Step::WaitForStdout { .. } => {
                all_type = false;
                all_keypress = false;
                has_event_wait = true;
            },
            _ => {
                all_type = false;
                all_keypress = false;
            },
        }
        k += 1;
    }
    let single_browser_focus = indices.len() == 1 && is_browser_focus(score, indices[0]);
    Selection { all_type, all_keypress, single_browser_focus, has_event_wait }
}

// ---------------------------------------------------------------------------
// Applying an action
// ---------------------------------------------------------------------------

/// Position `j` is one of the first `n` marked indices.
pub open spec fn marked_among(indices: Seq<usize>, n: int, j: int) -> bool {
    exists|k: int| 0 <= k < n && #[trigger] indices[k] as int == j
}

/// Position `j` is marked.
pub open spec fn marked(indices: Seq<usize>, j: int) -> bool {
    marked_among(indices, indices.len() as int, j)
}

/// An equal copy of a step.
pub fn copy_step(s: &Step) -> (r: Step)
    ensures
        r == *s,
{
    match s {
        Step::Type { text, human_salt } => Step::Type { text: text.clone(), human_salt: *human_salt },
        Step::Keypress { key } => Step::Keypress { key: key.clone() },
        Step::Wait { duration_ms } => Step::Wait { duration_ms: *duration_ms },
        Step::WaitForQuiet { quiet_ms, max_ms } => Step::WaitForQuiet {
            quiet_ms: *quiet_ms,
            max_ms: *max_ms,
        },
        Step::WaitForScreen { pattern, timeout_ms } => Step::WaitForScreen {
            pattern: pattern.clone(),
            timeout_ms: *timeout_ms,
        },
        Step::WaitForStdout { pattern, pane } => Step::WaitForStdout {
            pattern: pattern.clone(),
            pane: match pane {
                Some(p) => Some(p.clone()),
                None => None,
            },
        },
        Step::Focus { pane } => Step::Focus {
            pane: match pane {
                Some(p) => Some(p.clone()),
                None => None,
            },
        },
        Step::Caption { text } => Step::Caption { text: text.clone() },
        Step::Secret { prompt } => Step::Secret { prompt: prompt.clone() },
        Step::Scroll { direction, velocity, duration_ms, pane } => Step::Scroll {
            direction: *direction,
            velocity: *velocity,
            duration_ms: *duration_ms,
            pane: match pane {
                Some(p) => Some(p.clone()),
                None => None,
            },
        },
        Step::Terminate => Step::Terminate,
    }
}

/// The step every marked step becomes under a conversion, given the duration
/// or pattern asked for it (`None` for an action that converts nothing).
pub fn converted_step(action: EditAction, ms: u64, pattern: &str) -> (r: Option<Step>)
    ensures
        match action {
            EditAction::ToWait | EditAction::ChangeDuration => r == Some(
                Step::Wait { duration_ms: ms },
            ),
            EditAction::WaitForQuiet => r == Some(Step::WaitForQuiet { quiet_ms: ms, max_ms: None }),
            EditAction::WaitForScreen => match r {
                Some(Step::WaitForScreen { pattern: p, timeout_ms }) => p@ == pattern@
                    && timeout_ms.is_none(),
                _ => false,
            },
            EditAction::WaitForStdout => match r {
                Some(Step::WaitForStdout { pattern: p, pane }) => p@ == pattern@ && pane.is_none(),
                _ => false,
            },
            _ => r.is_none(),
        },
{
    match action {
        EditAction::ToWait | EditAction::ChangeDuration => Some(Step::Wait { duration_ms: ms }),
        EditAction::WaitForQuiet => Some(Step::WaitForQuiet { quiet_ms: ms, max_ms: None }),
        EditAction::WaitForScreen => {
            let mut p = String::new();
            push_str(&mut p, pattern);
            Some(Step::WaitForScreen { pattern: p, timeout_ms: None })
        },
        EditAction::WaitForStdout => {
            let mut p = String::new();
            push_str(&mut p, pattern);
            Some(Step::WaitForStdout { pattern: p, pane: None })
        },
        _ => None,
    }
}

/// Replaces every marked step by `step`.
pub fn replace_marked(timeline: &mut Vec<Step>, indices: &[usize], step: &Step)
    requires
        in_timeline(indices@, old(timeline)@.len() as int),
    ensures
        final(timeline)@.len() == old(timeline)@.len(),
        forall|j: int|
            0 <= j < old(timeline)@.len() ==> #[trigger] final(timeline)@[j] == if marked(
                indices@,
                j,
            ) {
                *step
            } else {
                old(timeline)@[j]
            },
{
    let mut k: usize = 0;
    while k < indices.len()
        invariant
            0 <= k <= indices@.len(),
            timeline@.len() == old(timeline)@.len(),
            in_timeline(indices@, old(timeline)@.len() as int),
            forall|j: int|
                0 <= j < old(timeline)@.len() ==> #[trigger] timeline@[j] == if marked_among(
                    indices@,
                    k as int,
                    j,
                ) {
                    *step
                } else {
                    old(timeline)@[j]
                },
        decreases indices@.len() - k,
    {
        let i = indices[k];
        let fresh = copy_step(step);
        timeline.set(i, fresh);
        proof {
            assert forall|j: int| 0 <= j < old(timeline)@.len() implies #[trigger] timeline@[j]
                == if marked_among(indices@, k + 1, j) {
                *step
            } else {
                old(timeline)@[j]
            } by {
                if j == i {
                    assert(indices@[k as int] as int == j);
                } else if marked_among(indices@, k + 1, j) {
                    let m = choose|m: int| 0 <= m < k + 1 && #[trigger] indices@[m] as int == j;
                    assert(m != k);
                    assert(marked_among(indices@, k as int, j));
                }
            }
        }
        k += 1;
    }
}

/// Sets the key of every marked `keypress` step to the typed key name, trimmed;
/// an empty name is refused and nothing changes.
pub fn set_marked_keys(timeline: &mut Vec<Step>, indices: &[usize], input: &str) -> (r: Result<
    (),
    Error,
>)
    requires
        in_timeline(indices@, old(timeline)@.len() as int),
    ensures
        trim(input@).len() == 0 ==> {
            &&& r is Err
            &&& r->Err_0.export_text() == Some("key name cannot be empty"@)
            &&& final(timeline)@ == old(timeline)@
        },
        trim(input@).len() > 0 ==> {
            &&& r is Ok
            &&& final(timeline)@.len() == old(timeline)@.len()
            &&& forall|j: int|
                0 <= j < old(timeline)@.len() ==> if marked(indices@, j) && old(timeline)@[j] is Keypress {
                    match #[trigger] final(timeline)@[j] {
                        Step::Keypress { key } => key@ == trim(input@),
                        _ => false,
                    }
                } else {
                    final(timeline)@[j] == old(timeline)@[j]
                }
        },
{
    let v = chars_of(input);
    let (a, b) = trim_bounds(&v);
    if a == b {
        let mut m = String::new();
        push_str(&mut m, "key name cannot be empty");
        return Err(Error::Export(m));
    }
    let kv = slice_of(&v, a, b);
    let key = string_of(&kv);
    let mut k: usize = 0;
    while k < indices.len()
        invariant
            0 <= k <= indices@.len(),
            key@ == trim(input@),
            timeline@.len() == old(timeline)@.len(),
            in_timeline(indices@, old(timeline)@.len() as int),
            forall|j: int|
                0 <= j < old(timeline)@.len() ==> if marked_among(indices@, k as int, j)
                    && old(timeline)@[j] is Keypress {
                    match #[trigger] timeline@[j] {
                        Step::Keypress { key } => key@ == trim(input@),
                        _ => false,
                    }
                } else {
                    timeline@[j] == old(timeline)@[j]
                },
        decreases indices@.len() - k,
    {
        let i = indices[k];
        let is_key = match &timeline[i] {
            Step::Keypress { .. } => true,
            _ => false,
        };
        proof {
            if !marked_among(indices@, k as int, i as int) {
                assert(timeline@[i as int] == old(timeline)@[i as int]);
            }
        }
        if is_key {
            timeline.set(i, Step::Keypress { key: key.clone() });
        }
        proof {
            assert forall|j: int| 0 <= j < old(timeline)@.len() implies if marked_among(
                indices@,
                k + 1,
                j,
            ) && old(timeline)@[j] is Keypress {
                match #[trigger] timeline@[j] {
                    Step::Keypress { key } => key@ == trim(input@),
                    _ => false,
                }
            } else {
                timeline@[j] == old(timeline)@[j]
            } by {
                if j == i {
                    assert(indices@[k as int] as int == j);
                } else if marked_among(indices@, k + 1, j) {
                    let m = choose|m: int| 0 <= m < k + 1 && #[trigger] indices@[m] as int == j;
                    assert(m != k);
                    assert(marked_among(indices@, k as int, j));
                }
            }
        }
        k += 1;
    }
    Ok(())
}

/// Inserts `step` right after step `first`; the cursor moves onto it.
pub fn insert_after(timeline: &mut Vec<Step>, first: usize, step: Step) -> (cursor: usize)
    requires
        first < old(timeline)@.len(),
    ensures
        cursor == first + 1,
        final(timeline)@ == old(timeline)@.insert(first + 1, step),
{
    let len = timeline.len();
    assert(first < len);
    timeline.insert(first + 1, step);
    first + 1
}

/// The steps of `s` whose positions are not marked, in order.
pub open spec fn without_marked(s: Seq<Step>, indices: Seq<usize>) -> Seq<Step>
    decreases s.len(),
{
    if s.len() == 0 {
        s
    } else {
        let rest = without_marked(s.drop_last(), indices);
        if indices.contains((s.len() - 1) as usize) {
            rest
        } else {
            rest.push(s.last())
        }
    }
}

/// Deletes every marked step.
pub fn delete_marked(timeline: &mut Vec<Step>, indices: &[usize])
    requires
        increasing(indices@),
        in_timeline(indices@, old(timeline)@.len() as int),
    ensures
        final(timeline)@ == without_marked(old(timeline)@, indices@),
        final(timeline)@.len() == old(timeline)@.len() - indices@.len(),
{
    let ghost s = timeline@;
    let mut out: Vec<Step> = Vec::new();
    let mut p: usize = 0;
    let mut j: usize = 0;
    assert(s.take(0) =~= Seq::<Step>::empty());
    while j < timeline.len()
        invariant
            timeline@ == s,
            0 <= j <= s.len(),
            0 <= p <= indices@.len(),
            increasing(indices@),
            in_timeline(indices@, s.len() as int),
            forall|m: int| 0 <= m < p ==> #[trigger] indices@[m] < j,
            forall|m: int| p <= m < indices@.len() ==> #[trigger] indices@[m] >= j,
            out@ == without_marked(s.take(j as int), indices@),
            out@.len() == j - p,
        decreases s.len() - j,
    {
        let is_marked = p < indices.len() && indices[p] == j;
        proof {
            assert(s.take(j + 1).drop_last() =~= s.take(j as int));
            assert(s.take(j + 1).last() == s[j as int]);
            if is_marked {
                assert(indices@[p as int] == j);
            } else {
                assert forall|m: int| 0 <= m < indices@.len() implies #[trigger] indices@[m] != j by {
                    if m > p {
                        assert(indices@[p as int] < indices@[m]);
                    }
                }
            }
        }
        if is_marked {
            p += 1;
        } else {
            out.push(copy_step(&timeline[j]));
        }
        proof {
            assert forall|m: int| p <= m < indices@.len() implies #[trigger] indices@[m] >= j + 1 by {
                if is_marked {
                    assert(indices@[p - 1] < indices@[m]);
                } else {
                    assert(indices@[m] != j);
                }
            }
        }
        j += 1;
    }
    proof {
        assert(s.take(j as int) =~= s);
        if p < indices@.len() {
            assert(indices@[p as int] < s.len());
        }
    }
    *timeline = out;
}

/// Step `j` is a `type` step whose text contains `find`.
pub open spec fn type_hit(timeline: Seq<Step>, j: int, find: Seq<char>) -> bool {
    match timeline[j] {
        Step::Type { text, .. } => contains_seq(text@, find),
        _ => false,
    }
}

/// How many of the marked positions are hits.
pub open spec fn count_hits(timeline: Seq<Step>, indices: Seq<usize>, find: Seq<char>) -> nat
    decreases indices.len(),
{
    if indices.len() == 0 {
        0
    } else {
        count_hits(timeline, indices.drop_last(), find) + if type_hit(
            timeline,
            indices.last() as int,
            find,
        ) {
            1nat
        } else {
            0nat
        }
    }
}

/// `after` is the `type` step `before` with `find` replaced by `replacement` in its text.
pub open spec fn replaced_type(before: Step, after: Step, find: Seq<char>, replacement: Seq<char>) -> bool {
    match (before, after) {
        (Step::Type { text: a, human_salt: g }, Step::Type { text: b, human_salt: h }) => b@
            == replace_all_spec(a@, find, replacement) && h == g,
        _ => false,
    }
}

/// Find & replace across the marked `type` steps: each one whose text contains
/// `find` gets every occurrence replaced; returns how many steps changed.
pub fn replace_in_types(
    timeline: &mut Vec<Step>,
    indices: &[usize],
    find: &str,
    replacement: &str,
) -> (changed: usize)
    requires
        increasing(indices@),
        in_timeline(indices@, old(timeline)@.len() as int),
        find@.len() > 0,
    ensures
        changed == count_hits(old(timeline)@, indices@, find@),
        final(timeline)@.len() == old(timeline)@.len(),
        forall|j: int|
            0 <= j < old(timeline)@.len() ==> if marked(indices@, j) && type_hit(
                old(timeline)@,
                j,
                find@,
            ) {
                replaced_type(old(timeline)@[j], #[trigger] final(timeline)@[j], find@, replacement@)
            } else {
                final(timeline)@[j] == old(timeline)@[j]
            },
{
    let fv = chars_of(find);
    let rv = chars_of(replacement);
    let mut changed: usize = 0;
    let mut k: usize = 0;
    while k < indices.len()
        invariant
            0 <= k <= indices@.len(),
            changed <= k,
            fv@ == find@,
            rv@ == replacement@,
            find@.len() > 0,
            increasing(indices@),
            in_timeline(indices@, old(timeline)@.len() as int),
            timeline@.len() == old(timeline)@.len(),
            changed == count_hits(old(timeline)@, indices@.take(k as int), find@),
            forall|j: int|
                0 <= j < old(timeline)@.len() ==> if marked_among(indices@, k as int, j) && type_hit(
                    old(timeline)@,
                    j,
                    find@,
                ) {
                    replaced_type(old(timeline)@[j], #[trigger] timeline@[j], find@, replacement@)
                } else {
                    timeline@[j] == old(timeline)@[j]
                },
        decreases indices@.len() - k,
    {
        let i = indices[k];
        proof {
            if marked_among(indices@, k as int, i as int) {
                let m = choose|m: int| 0 <= m < k && #[trigger] indices@[m] as int == i;
                assert(indices@[m] < indices@[k as int]);
            }
            assert(timeline@[i as int] == old(timeline)@[i as int]);
            assert(indices@.take(k + 1).drop_last() =~= indices@.take(k as int));
            assert(indices@.take(k + 1).last() == i);
        }
        let new_step: Option<Step> = match &timeline[i] {
            Step::Type { text, human_salt } => {
                let tv = chars_of(text.as_str());
                if contains(&tv, &fv) {
                    let nv = replace_all(&tv, &fv, &rv);
                    Some(Step::Type { text: string_of(&nv), human_salt: *human_salt })
                } else {
                    None
                }
            },
            _ => None,
        };
        proof {
            assert(new_step.is_some() == type_hit(old(timeline)@, i as int, find@));
        }
        match new_step {
            Some(st) => {
                timeline.set(i, st);
                changed += 1;
            },
            None => {},
        }
        proof {
            assert forall|j: int| 0 <= j < old(timeline)@.len() implies if marked_among(
                indices@,
                k + 1,
                j,
            ) && type_hit(old(timeline)@, j, find@) {
                replaced_type(old(timeline)@[j], #[trigger] timeline@[j], find@, replacement@)
            } else {
                timeline@[j] == old(timeline)@[j]
            } by {
                if j == i {
                    assert(indices@[k as int] as int == j);
                } else if marked_among(indices@, k + 1, j) {
                    let m = choose|m: int| 0 <= m < k + 1 && #[trigger] indices@[m] as int == j;
                    assert(m != k);
                    assert(marked_among(indices@, k as int, j));
                }
            }
        }
        k += 1;
    }
    assert(indices@.take(k as int) =~= indices@);
    changed
}

/// A text as the editor shows it: newlines as `↵`.
pub open spec fn flattened(text: Seq<char>) -> Seq<char> {
    text.map_values(|c: char| flat_char(c))
}

/// A `↵` typed in the editor stands for a newline.
pub open spec fn unflat_char(c: char) -> char {
    if c == '↵' {
        '\n'
    } else {
        c
    }
}

/// A typed text with every `↵` turned back into a newline.
pub open spec fn unflattened(text: Seq<char>) -> Seq<char> {
    text.map_values(|c: char| unflat_char(c))
}

/// Editing a text without changing it gives it back: a text holding no `↵`
/// of its own, shown with its newlines flattened and read back in, is the text
/// it was.
pub proof fn lemma_flatten_round_trip(text: Seq<char>)
    requires
        !text.contains('↵'),
    ensures
        unflattened(flattened(text)) == text,
{
    assert forall|i: int| 0 <= i < text.len() implies unflattened(flattened(text))[i] == text[i] by {
        assert(text[i] != '↵');
    }
    assert(unflattened(flattened(text)) =~= text);
}

/// `text` with each newline shown as `↵`.
pub fn flatten_newlines(text: &str) -> (r: String)
    ensures
        r@ == flattened(text@),
{
    let v = chars_of(text);
    let mut r = String::new();
    let mut i: usize = 0;
    while i < v.len()
        invariant
            0 <= i <= v@.len(),
            v@ == text@,
            r@ == v@.take(i as int).map_values(|c: char| flat_char(c)),
        decreases v@.len() - i,
    {
        let c = v[i];
        if c == '\n' {
            push_char(&mut r, '↵');
        } else {
            push_char(&mut r, c);
        }
        assert(v@.take(i + 1).map_values(|c: char| flat_char(c)) =~= v@.take(i as int).map_values(
            |c: char| flat_char(c),
        ).push(flat_char(c)));
        i += 1;
    }
    assert(v@.take(i as int) =~= v@);
    r
}

/// `text` with each `↵` turned back into a newline.
pub fn unflatten_newlines(text: &str) -> (r: String)
    ensures
        r@ == unflattened(text@),
{
    let v = chars_of(text);
    let mut r = String::new();
    let mut i: usize = 0;
    while i < v.len()
        invariant
            0 <= i <= v@.len(),
            v@ == text@,
            r@ == v@.take(i as int).map_values(|c: char| unflat_char(c)),
        decreases v@.len() - i,
    {
        let c = v[i];
        if c == '↵' {
            push_char(&mut r, '\n');
        } else {
            push_char(&mut r, c);
        }
        assert(v@.take(i + 1).map_values(|c: char| unflat_char(c)) =~= v@.take(i as int).map_values(
            |c: char| unflat_char(c),
        ).push(unflat_char(c)));
        i += 1;
    }
    assert(v@.take(i as int) =~= v@);
    r
}

/// Replaces the text of `type` step `idx` with the edited `input` (each `↵`
/// standing for a newline), keeping its human jitter; any other step stays.
pub fn set_type_text(timeline: &mut Vec<Step>, idx: usize, input: &str) -> (r: bool)
    requires
        idx < old(timeline)@.len(),
    ensures
        r == old(timeline)@[idx as int] is Type,
        final(timeline)@.len() == old(timeline)@.len(),
        forall|j: int|
            0 <= j < old(timeline)@.len() && j != idx ==> #[trigger] final(timeline)@[j] == old(
                timeline,
            )@[j],
        r ==> match (old(timeline)@[idx as int], final(timeline)@[idx as int]) {
            (Step::Type { human_salt: g, .. }, Step::Type { text, human_salt: h }) => text@
                == unflattened(input@) && h == g,
            _ => false,
        },
        !r ==> final(timeline)@ == old(timeline)@,
{
    let hs = match &timeline[idx] {
        Step::Type { human_salt, .. } => Some(*human_salt),
        _ => None,
    };
    match hs {
        Some(h) => {
            let text = unflatten_newlines(input);
            timeline.set(idx, Step::Type { text, human_salt: h });
            true
        },
        None => false,
    }
}

/// The pieces of a split, each but the last followed by the delimiter.
pub open spec fn pieces_with_delims(parts: Seq<Seq<char>>, d: Seq<char>) -> Seq<Seq<char>> {
    Seq::new(
        parts.len(),
        |i: int|
            if i + 1 < parts.len() {
                parts[i] + d
            } else {
                parts[i]
            },
    )
}

/// A text that is not empty.
pub open spec fn nonempty_text(t: Seq<char>) -> bool {
    t.len() > 0
}

/// The texts a split produces: each piece but the last keeps its delimiter, and
/// the empty ones are dropped.
pub open spec fn split_texts(parts: Seq<Seq<char>>, d: Seq<char>) -> Seq<Seq<char>> {
    pieces_with_delims(parts, d).filter(|t: Seq<char>| nonempty_text(t))
}

/// `steps` are `type` steps with texts `texts`, all with jitter `hs`.
pub open spec fn typed_steps(steps: Seq<Step>, texts: Seq<Seq<char>>, hs: bool) -> bool {
    &&& steps.len() == texts.len()
    &&& forall|k: int|
        0 <= k < steps.len() ==> match #[trigger] steps[k] {
            Step::Type { text, human_salt } => text@ == texts[k] && human_salt == hs,
            _ => false,
        }
}

/// Replaces step `idx` by `type` steps holding `text` split at every
/// occurrence of `delim` (see `split_texts`), all with jitter `human_salt`, and
/// returns how many steps it became; `None`, with nothing changed, when `delim`
/// does not occur.
pub fn do_split(
    timeline: &mut Vec<Step>,
    idx: usize,
    delim: &str,
    human_salt: bool,
    text: &str,
) -> (r: Result<Option<usize>, Error>)
    requires
        split_str(text@, delim@).len() > 1 ==> idx < old(timeline)@.len(),
    ensures
        ({
            let parts = split_str(text@, delim@);
            let texts = split_texts(parts, delim@);
            if parts.len() <= 1 {
                r == Ok::<Option<usize>, Error>(None) && final(timeline)@ == old(timeline)@
            } else {
                &&& r == Ok::<Option<usize>, Error>(Some(texts.len() as usize))
                &&& final(timeline)@.len() == old(timeline)@.len() - 1 + texts.len()
                &&& final(timeline)@.take(idx as int) == old(timeline)@.take(idx as int)
                &&& final(timeline)@.skip(idx + texts.len()) == old(timeline)@.skip(idx + 1)
                &&& typed_steps(
                    final(timeline)@.subrange(idx as int, idx + texts.len()),
                    texts,
                    human_salt,
                )
            }
        }),
{
    let tv = chars_of(text);
    let dv = chars_of(delim);
    let parts = split_str_pieces(&tv, &dv);
    let ghost pv = parts@.map_values(|p: Vec<char>| p@);
    if parts.len() <= 1 {
        return Ok(None);
    }
    let ghost pieces = pieces_with_delims(pv, delim@);
    let ghost texts = split_texts(pv, delim@);
    let ghost s = timeline@;
    timeline.remove(idx);
    let mut at: usize = idx;
    let mut k: usize = 0;
    let n = parts.len();
    assert(pieces.take(0) =~= Seq::<Seq<char>>::empty());
    assert(pieces.take(0).filter(|t: Seq<char>| nonempty_text(t)) =~= Seq::<Seq<char>>::empty())
        by {
        reveal(Seq::filter);
    }
    while k < n
        invariant
            n == parts@.len(),
            n >= 2,
            pv == parts@.map_values(|p: Vec<char>| p@),
            dv@ == delim@,
            pieces == pieces_with_delims(pv, delim@),
            texts == pieces.filter(|t: Seq<char>| nonempty_text(t)),
            idx < s.len(),
            0 <= k <= n,
            idx <= at,
            at - idx == pieces.take(k as int).filter(|t: Seq<char>| nonempty_text(t)).len(),
            timeline@ == s.take(idx as int) + timeline@.subrange(idx as int, at as int) + s.skip(
                idx + 1,
            ),
            typed_steps(
                timeline@.subrange(idx as int, at as int),
                pieces.take(k as int).filter(|t: Seq<char>| nonempty_text(t)),
                human_salt,
            ),
        decreases n - k,
    {
        let ghost done = pieces.take(k as int).filter(|t: Seq<char>| nonempty_text(t));
        let mut piece: Vec<char> = Vec::new();
        extend_chars(&mut piece, &parts[k]);
        if k + 1 < n {
            extend_chars(&mut piece, &dv);
        }
        proof {
            assert(piece@ == pieces[k as int]);
            assert(pieces.take(k + 1) =~= pieces.take(k as int).push(pieces[k as int]));
            pieces.take(k as int).lemma_filter_push(
                pieces[k as int],
                |t: Seq<char>| nonempty_text(t),
            );
        }
        if piece.len() > 0 {
            let ghost before = timeline@;
            let t = string_of(&piece);
            timeline.insert(at, Step::Type { text: t, human_salt });
            let grown = timeline.len();
            proof {
                let seg = timeline@.subrange(idx as int, at + 1);
                assert(seg =~= before.subrange(idx as int, at as int).push(timeline@[at as int]));
                assert(timeline@ =~= s.take(idx as int) + seg + s.skip(idx + 1));
                assert(done.push(piece@) == pieces.take(k + 1).filter(
                    |t: Seq<char>| nonempty_text(t),
                ));
                assert(typed_steps(seg, done.push(piece@), human_salt));
                assert(at < grown);
            }
            at += 1;
        }
        k += 1;
    }
    proof {
        assert(pieces.take(n as int) =~= pieces);
        assert(timeline@.take(idx as int) =~= s.take(idx as int));
        assert(timeline@.skip(at as int) =~= s.skip(idx + 1));
    }
    Ok(Some(at - idx))
}

proof fn lemma_filter_flatten(x: Seq<Seq<char>>)
    ensures
        x.filter(|t: Seq<char>| nonempty_text(t)).flatten() == x.flatten(),
    decreases x.len(),
{
    if x.len() == 0 {
        reveal(Seq::filter);
    } else {
        let y = x.drop_last();
        let last = x.last();
        lemma_filter_flatten(y);
        assert(x =~= y.push(last));
        y.lemma_filter_push(last, |t: Seq<char>| nonempty_text(t));
        let fy = y.filter(|t: Seq<char>| nonempty_text(t));
        vstd::seq_lib::lemma_flatten_concat(y, seq![last]);
        vstd::seq_lib::lemma_flatten_concat(fy, seq![last]);
        assert(y.push(last) =~= y + seq![last]);
        assert(fy.push(last) =~= fy + seq![last]);
        assert(seq![last].drop_first() =~= Seq::<Seq<char>>::empty());
        assert(seq![last].drop_first().flatten() == Seq::<char>::empty());
        assert(last + Seq::<char>::empty() =~= last);
        assert(seq![last].flatten() =~= last);
        if last.len() == 0 {
            assert(y.flatten() + last =~= y.flatten());
        }
    }
}

proof fn lemma_pieces_flatten(parts: Seq<Seq<char>>, d: Seq<char>)
    requires
        parts.len() >= 1,
    ensures
        pieces_with_delims(parts, d).flatten() == join_front(parts, d),
    decreases parts.len(),
{
    let pieces = pieces_with_delims(parts, d);
    if parts.len() == 1 {
        assert(pieces.drop_first() =~= Seq::<Seq<char>>::empty());
        assert(pieces.drop_first().flatten() =~= Seq::<char>::empty());
        assert(parts[0] + Seq::<char>::empty() =~= parts[0]);
    } else {
        let rest = parts.skip(1);
        lemma_pieces_flatten(rest, d);
        assert(pieces.drop_first() =~= pieces_with_delims(rest, d));
        assert(pieces.first() == parts[0] + d);
        assert(join_front(parts, d) == parts[0] + d + join_front(rest, d));
    }
}

/// Splitting a `type` step loses no character and adds none: the texts of the
/// steps it becomes, in order, spell the original text.
pub proof fn lemma_split_rejoins(text: Seq<char>, d: Seq<char>)
    ensures
        split_texts(split_str(text, d), d).flatten() == text,
{
    lemma_split_str_join(text, d);
    lemma_pieces_flatten(split_str(text, d), d);
    lemma_filter_flatten(pieces_with_delims(split_str(text, d), d));
}

/// Where the cursor goes after an action on the marked steps starting at
/// `first`: onto an inserted step when there is one, and never past the end of
/// a `len`-step timeline.
pub open spec fn next_cursor_spec(first: nat, inserted: Option<nat>, len: nat) -> nat {
    let c = match inserted {
        Some(c) => c,
        None => first,
    };
    if c >= len && c > 0 {
        (len - 1) as nat
    } else {
        c
    }
}

/// Where the cursor goes after an action (see `next_cursor_spec`), in a
/// timeline that still has steps.
pub fn next_cursor(first: usize, inserted: Option<usize>, len: usize) -> (r: usize)
    requires
        len > 0,
    ensures
        r == next_cursor_spec(
            first as nat,
            match inserted {
                Some(c) => Some(c as nat),
                None => None,
            },
            len as nat,
        ),
{
    let c = match inserted {
        Some(c) => c,
        None => first,
    };
    if c >= len && c > 0 {
        len - 1
    } else {
        c
    }
}

// ---------------------------------------------------------------------------
// Answers typed at the editor's prompts
// ---------------------------------------------------------------------------

/// A number typed at a prompt: the trimmed answer read as a `u64`, or
/// `invalid number: <answer>`.
pub open spec fn number_answer_spec(v: Seq<char>) -> Result<u64, Seq<char>> {
    match parse_uint_spec(trim(v), u64::MAX as nat) {
        Some(n) => Ok(n as u64),
        None => Err("invalid number: "@ + v),
    }
}

/// Reads a number typed at a prompt.
pub fn number_answer(v: &str) -> (r: Result<u64, Error>)
    ensures
        export_outcome(r) == Some(number_answer_spec(v@)),
{
    let cs = chars_of(v);
    let (a, b) = trim_bounds(&cs);
    match parse_uint(&cs, a, b, u64::MAX) {
        Some(n) => Ok(n),
        None => {
            let mut m = String::new();
            push_str(&mut m, "invalid number: ");
            push_str(&mut m, v);
            Err(Error::Export(m))
        },
    }
}

/// A text typed at a prompt: the trimmed answer, refused when blank.
pub open spec fn text_answer_spec(v: Seq<char>) -> Result<Seq<char>, Seq<char>> {
    if trim(v).len() == 0 {
        Err("cannot be empty"@)
    } else {
        Ok(trim(v))
    }
}

/// Reads a text typed at a prompt.
pub fn text_answer(v: &str) -> (r: Result<String, Error>)
    ensures
        match r {
            Ok(s) => text_answer_spec(v@) == Ok::<Seq<char>, Seq<char>>(s@),
            Err(e) => text_answer_spec(v@).is_err() && e.export_text() == Some("cannot be empty"@),
        },
{
    let cs = chars_of(v);
    let (a, b) = trim_bounds(&cs);
    if a == b {
        let mut m = String::new();
        push_str(&mut m, "cannot be empty");
        assert(m@ =~= "cannot be empty"@);
        Err(Error::Export(m))
    } else {
        let t = slice_of(&cs, a, b);
        Ok(string_of(&t))
    }
}

/// The kinds of step the editor can insert.
#[derive(Debug, Clone, Copy, PartialEq, Eq, Structural)]
pub enum InsertKind {
    Wait,
    Keypress,
    Type,
    WaitForQuiet,
    WaitForStdout,
    WaitForScreen,
    Caption,
}

/// What the editor asks when inserting a step of a kind: the question, and
/// the default answer for a number.
pub open spec fn insert_question_spec(kind: InsertKind) -> (Seq<char>, Option<u64>) {
    match kind {
        InsertKind::Wait => ("duration_ms:"@, Some(200u64)),
        InsertKind::Keypress => ("key name (enter, tab, esc, f1, ctrl+c, ...):"@, None),
        InsertKind::Type => ("text:"@, None),
        InsertKind::WaitForQuiet => ("quiet_ms:"@, Some(500u64)),
        InsertKind::WaitForStdout => ("match pattern:"@, None),
        InsertKind::WaitForScreen => ("match pattern:"@, None),
        InsertKind::Caption => ("caption text:"@, None),
    }
}

/// The question asked for a new step of `kind`, with its default number.
pub fn insert_question(kind: InsertKind) -> (r: (&'static str, Option<u64>))
    ensures
        (r.0@, r.1) == insert_question_spec(kind),
{
    match kind {
        InsertKind::Wait => ("duration_ms:", Some(200)),
        InsertKind::Keypress => ("key name (enter, tab, esc, f1, ctrl+c, ...):", None),
        InsertKind::Type => ("text:", None),
        InsertKind::WaitForQuiet => ("quiet_ms:", Some(500)),
        InsertKind::WaitForStdout => ("match pattern:", None),
        InsertKind::WaitForScreen => ("match pattern:", None),
        InsertKind::Caption => ("caption text:", None),
    }
}

/// The step of `kind` built from the answer: a number for the waits, the
/// text as typed (with human-like typing) for `type`, a non-blank trimmed
/// text otherwise.
pub open spec fn inserted_step_ok(kind: InsertKind, answer: Seq<char>, s: Step) -> bool {
    match kind {
        InsertKind::Wait => number_answer_spec(answer) matches Ok(n) && s == Step::Wait { duration_ms: n },
        InsertKind::WaitForQuiet => number_answer_spec(answer) matches Ok(n) && s
            == Step::WaitForQuiet { quiet_ms: n, max_ms: None },
        InsertKind::Type => s matches Step::Type { text, human_salt } && text@ == answer && human_salt,
        InsertKind::Keypress => text_answer_spec(answer) matches Ok(t) && s matches Step::Keypress {
            key,
        } && key@ == t,
        InsertKind::WaitForStdout => text_answer_spec(answer) matches Ok(t) && s matches Step::WaitForStdout {
            pattern,
            pane,
        } && pattern@ == t && pane is None,
        InsertKind::WaitForScreen => text_answer_spec(answer) matches Ok(t) && s matches Step::WaitForScreen {
            pattern,
            timeout_ms,
        } && pattern@ == t && timeout_ms is None,
        InsertKind::Caption => text_answer_spec(answer) matches Ok(t) && s matches Step::Caption {
            text,
        } && text@ == t,
    }
}

/// The error an answer gets for a step of `kind`, if it is refused.
pub open spec fn inserted_step_err(kind: InsertKind, answer: Seq<char>) -> Option<Seq<char>> {
    match kind {
        InsertKind::Wait | InsertKind::WaitForQuiet => match number_answer_spec(answer) {
            Ok(_) => None,
            Err(m) => Some(m),
        },
        InsertKind::Type => None,
        _ => match text_answer_spec(answer) {
            Ok(_) => None,
            Err(m) => Some(m),
        },
    }
}

/// The step to insert, built from the answer to its question.
pub fn inserted_step(kind: InsertKind, answer: &str) -> (r: Result<Step, Error>)
    ensures
        match r {
            Ok(s) => inserted_step_err(kind, answer@).is_none() && inserted_step_ok(kind, answer@, s),
            Err(e) => inserted_step_err(kind, answer@) == e.export_text() && e.export_text().is_some(),
        },
{
    match kind {
        InsertKind::Wait => match number_answer(answer) {
            Ok(n) => Ok(Step::Wait { duration_ms: n }),
            Err(e) => Err(e),
        },
        InsertKind::WaitForQuiet => match number_answer(answer) {
            Ok(n) => Ok(Step::WaitForQuiet { quiet_ms: n, max_ms: None }),
            Err(e) => Err(e),
        },
        InsertKind::Type => {
            let mut t = String::new();
            push_str(&mut t, answer);
            assert(t@ =~= answer@);
            Ok(Step::Type { text: t, human_salt: true })
        },
        _ => {
            let t = match text_answer(answer) {
                Ok(t) => t,
                Err(e) => {
                    return Err(e);
                },
            };
            match kind {
                InsertKind::Keypress => Ok(Step::Keypress { key: t }),
                InsertKind::WaitForStdout => Ok(Step::WaitForStdout { pattern: t, pane: None }),
                InsertKind::WaitForScreen => Ok(Step::WaitForScreen { pattern: t, timeout_ms: None }),
                _ => Ok(Step::Caption { text: t }),
            }
        },
    }
}

} // verus!
