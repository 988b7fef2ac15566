//! Writing and reading an asciinema cast: its header line and its event
//! lines, each a JSON value, to and from a recording. Strings are quoted here
//! as `serde_json` quotes them; lines are read back by `serde_json`. Times stay
//! as the cast wrote them (decimal seconds), for the front end to read as
//! numbers.

use vstd::prelude::*;
use crate::model::{copy_opt_str, opt_str};
use crate::model::Score;
use crate::recording::{cast_grid, cast_side, default_score, default_score_spec};
use crate::text::{
    chars_of, decimal, decimal_string, lemma_split_nonempty, push_str, slice_of, split_on, split_pieces, str_eq, string_of,
    trim, trim_bounds,
};

verus! {

broadcast use vstd::string::group_string_axioms;

// ---------------------------------------------------------------------------
// Lines
// ---------------------------------------------------------------------------

/// A line without the `\r` of a `\r\n` ending.
pub open spec fn strip_cr(l: Seq<char>) -> Seq<char> {
    if l.len() > 0 && l.last() == '\r' {
        l.drop_last()
    } else {
        l
    }
}

/// The lines of a text, as `str::lines` gives them: the pieces between
/// newlines, without the empty piece after a final newline; a line ended by
/// `\r\n` loses its `\r`.
pub open spec fn text_lines(s: Seq<char>) -> Seq<Seq<char>> {
    let p = split_on(s, '\n');
    let n = if p.last().len() == 0 {
        p.len() - 1
    } else {
        p.len() as int
    };
    Seq::new(
        n as nat,
        |i: int|
            if i < p.len() - 1 {
                strip_cr(p[i])
            } else {
                p[i]
            },
    )
}

/// The event lines of a cast: every line after the first, trimmed, blank ones
/// left out.
pub open spec fn event_lines(lines: Seq<Seq<char>>) -> Seq<Seq<char>>
    decreases lines.len(),
{
    if lines.len() <= 1 {
        Seq::empty()
    } else {
        let rest = event_lines(lines.drop_last());
        let l = trim(lines.last());
        if l.len() == 0 {
            rest
        } else {
            rest.push(l)
        }
    }
}

// ---------------------------------------------------------------------------
// Parsed lines
// ---------------------------------------------------------------------------

/// What a cast header says, as parsed: its `width` and `height` when they are
/// unsigned integers, its `title` when it is a string, and its `demostage`
/// meta (as JSON text) when there is one.
#[derive(Debug)]
pub struct CastHeader {
    pub width: Option<u64>,
    pub height: Option<u64>,
    pub title: Option<String>,
    pub meta: Option<String>,
}

/// What a cast event line says, as parsed: its first element when it is a
/// number (as the number's text), and its second and third when they are
/// strings.
#[derive(Debug)]
pub struct CastEvent {
    pub time: Option<String>,
    pub kind: Option<String>,
    pub data: Option<String>,
}

pub open spec fn header_view(h: CastHeader) -> (Option<u64>, Option<u64>, Option<Seq<char>>, Option<Seq<char>>) {
    (h.width, h.height, opt_str(h.title), opt_str(h.meta))
}

pub open spec fn event_view(e: CastEvent) -> (Option<Seq<char>>, Option<Seq<char>>, Option<Seq<char>>) {
    (opt_str(e.time), opt_str(e.kind), opt_str(e.data))
}

/// Whether `serde_json` reads `line` as a JSON value.
pub uninterp spec fn json_parses(line: Seq<char>) -> bool;

/// The member `key` of the JSON object on `line`, when it is an unsigned
/// integer (`serde_json`'s `Value::get` then `Value::as_u64`).
pub uninterp spec fn json_u64_at(line: Seq<char>, key: Seq<char>) -> Option<u64>;

/// The member `key` of the JSON object on `line`, when it is a string.
pub uninterp spec fn json_str_at(line: Seq<char>, key: Seq<char>) -> Option<Seq<char>>;

/// The member `key` of the JSON object on `line`, as `serde_json` prints it.
pub uninterp spec fn json_printed_at(line: Seq<char>, key: Seq<char>) -> Option<Seq<char>>;

/// Element `i` of the JSON array on `line`, when it is a number (as
/// `serde_json` prints the number).
pub uninterp spec fn json_number_in(line: Seq<char>, i: int) -> Option<Seq<char>>;

/// Element `i` of the JSON array on `line`, when it is a string.
pub uninterp spec fn json_str_in(line: Seq<char>, i: int) -> Option<Seq<char>>;

/// The text `serde_json` prints for the number written `t` (the `Display` of
/// the `Number` that `serde_json::from_str` reads from `t`), or `None` when
/// `t` is not a JSON number.
pub uninterp spec fn json_number_text(t: Seq<char>) -> Option<Seq<char>>;

/// The text `serde_json` prints (the `Display` of the `Value`) for the JSON
/// value written `m` when it stands as the value of an object member (one
/// level of nesting down), or `None` when `m` is not a JSON value there.
pub uninterp spec fn json_member_text(m: Seq<char>) -> Option<Seq<char>>;

/// What a header line says: its `width` and `height` as unsigned integers, its
/// `title` as a string and its `demostage` meta as printed JSON (`None` when
/// the line is not JSON).
pub open spec fn cast_header_json(line: Seq<char>) -> Option<
    (Option<u64>, Option<u64>, Option<Seq<char>>, Option<Seq<char>>),
> {
    if json_parses(line) {
        Some(
            (
                json_u64_at(line, "width"@),
                json_u64_at(line, "height"@),
                json_str_at(line, "title"@),
                json_printed_at(line, "demostage"@),
            ),
        )
    } else {
        None
    }
}

/// What an event line says: its time as a number, its kind and its data as
/// strings (`None` when the line is not JSON).
pub open spec fn cast_event_json(line: Seq<char>) -> Option<
    (Option<Seq<char>>, Option<Seq<char>>, Option<Seq<char>>),
> {
    if json_parses(line) {
        Some((json_number_in(line, 0), json_str_in(line, 1), json_str_in(line, 2)))
    } else {
        None
    }
}

/// `serde_json::from_str` on `line` into a `serde_json::Value`: `None` when it
/// parses, else the error's message (its `Display`), of which nothing is
/// claimed. Claimed: whether the line parses depends on the line alone, and a
/// header line or an output line as `write_cast` writes it (whose meta is a
/// JSON value, whose time is a JSON number) parses.
#[verifier::external_body]
fn json_parse_error(line: &str) -> (r: Option<String>)
    ensures
        r.is_none() == json_parses(line@),
        forall|cols: u16, rows: u16, title: Seq<char>, meta: Seq<char>|
            #[trigger] header_line_spec(cols, rows, title, meta) == line@ && json_member_text(
                meta,
            ).is_some() ==> r.is_none(),
        forall|time: Seq<char>, data: Seq<char>|
            #[trigger] event_line_spec(time, data) == line@ && json_number_text(time).is_some()
                ==> r.is_none(),
{
    match serde_json::from_str::<serde_json::Value>(line) {
        Ok(_) => None,
        Err(e) => Some(e.to_string()),
    }
}

/// `serde_json::from_str` on `line`, then `Value::get(key)` and
/// `Value::as_u64`. Claimed: the result depends on the line and the key alone,
/// and a header line as `write_cast` writes it gives its grid under `width`
/// and `height`.
#[verifier::external_body]
fn json_u64_member(line: &str, key: &str) -> (r: Option<u64>)
    ensures
        r == json_u64_at(line@, key@),
        forall|cols: u16, rows: u16, title: Seq<char>, meta: Seq<char>|
            #[trigger] header_line_spec(cols, rows, title, meta) == line@ && json_member_text(
                meta,
            ).is_some() ==> (key@ == "width"@ ==> r == Some(cols as u64)) && (key@ == "height"@
                ==> r == Some(rows as u64)),
{
    match serde_json::from_str::<serde_json::Value>(line) {
        Ok(v) => v.get(key).and_then(serde_json::Value::as_u64),
        Err(_) => None,
    }
}

/// `serde_json::from_str` on `line`, then `Value::get(key)` and
/// `Value::as_str`. Claimed: the result depends on the line and the key alone,
/// and a header line as `write_cast` writes it gives its title under `title`
/// (`serde_json` reads its own string escapes back).
#[verifier::external_body]
fn json_str_member(line: &str, key: &str) -> (r: Option<String>)
    ensures
        opt_str(r) == json_str_at(line@, key@),
        forall|cols: u16, rows: u16, title: Seq<char>, meta: Seq<char>|
            #[trigger] header_line_spec(cols, rows, title, meta) == line@ && json_member_text(
                meta,
            ).is_some() ==> (key@ == "title"@ ==> opt_str(r) == Some(title)),
{
    match serde_json::from_str::<serde_json::Value>(line) {
        Ok(v) => v.get(key).and_then(serde_json::Value::as_str).map(str::to_string),
        Err(_) => None,
    }
}

/// `serde_json::from_str` on `line`, then `Value::get(key)`, printed back by
/// its `Display`. Claimed: the result depends on the line and the key alone,
/// and a header line as `write_cast` writes it gives under `demostage` its
/// meta as `serde_json` prints that value.
#[verifier::external_body]
fn json_member_printed(line: &str, key: &str) -> (r: Option<String>)
    ensures
        opt_str(r) == json_printed_at(line@, key@),
        forall|cols: u16, rows: u16, title: Seq<char>, meta: Seq<char>|
            #[trigger] header_line_spec(cols, rows, title, meta) == line@ && json_member_text(
                meta,
            ).is_some() ==> (key@ == "demostage"@ ==> opt_str(r) == json_member_text(meta)),
{
    match serde_json::from_str::<serde_json::Value>(line) {
        Ok(v) => v.get(key).map(serde_json::Value::to_string),
        Err(_) => None,
    }
}

/// `serde_json::from_str` on `line`, then `Value::get(i)` and
/// `Value::as_number`, printed back by its `Display`. Claimed: the result
/// depends on the line and the index alone, and an output line as `write_cast`
/// writes it gives its time, as `serde_json` prints it, at index 0.
#[verifier::external_body]
fn json_number_element(line: &str, i: usize) -> (r: Option<String>)
    ensures
        opt_str(r) == json_number_in(line@, i as int),
        forall|time: Seq<char>, data: Seq<char>|
            #[trigger] event_line_spec(time, data) == line@ && json_number_text(time).is_some()
                ==> (i == 0 ==> opt_str(r) == json_number_text(time)),
{
    match serde_json::from_str::<serde_json::Value>(line) {
        Ok(v) => v.get(i).and_then(serde_json::Value::as_number).map(serde_json::Number::to_string),
        Err(_) => None,
    }
}

/// `serde_json::from_str` on `line`, then `Value::get(i)` and `Value::as_str`.
/// Claimed: the result depends on the line and the index alone, and an output
/// line as `write_cast` writes it gives the kind `o` at index 1 and its data
/// at index 2.
#[verifier::external_body]
fn json_str_element(line: &str, i: usize) -> (r: Option<String>)
    ensures
        opt_str(r) == json_str_in(line@, i as int),
        forall|time: Seq<char>, data: Seq<char>|
            #[trigger] event_line_spec(time, data) == line@ && json_number_text(time).is_some()
                ==> (i == 1 ==> opt_str(r) == Some("o"@)) && (i == 2 ==> opt_str(r) == Some(data)),
{
    match serde_json::from_str::<serde_json::Value>(line) {
        Ok(v) => v.get(i).and_then(serde_json::Value::as_str).map(str::to_string),
        Err(_) => None,
    }
}

/// Parses a header line: what it says (see `cast_header_json`), or the
/// parser's message when it is not JSON. A line as `write_cast` writes it
/// (whose meta is a JSON value) parses, giving back the grid, the title and the
/// meta as `serde_json` prints it.
fn parse_cast_header(line: &str) -> (r: Result<CastHeader, String>)
    ensures
        match r {
            Ok(h) => cast_header_json(line@) == Some(header_view(h)),
            Err(_) => cast_header_json(line@).is_none(),
        },
        forall|cols: u16, rows: u16, title: Seq<char>, meta: Seq<char>|
            #[trigger] header_line_spec(cols, rows, title, meta) == line@ && json_member_text(
                meta,
            ).is_some() ==> r.is_ok() && header_view(r->Ok_0) == (
                Some(cols as u64),
                Some(rows as u64),
                Some(title),
                json_member_text(meta),
            ),
{
    match json_parse_error(line) {
        Some(e) => Err(e),
        None => Ok(
            CastHeader {
                width: json_u64_member(line, "width"),
                height: json_u64_member(line, "height"),
                title: json_str_member(line, "title"),
                meta: json_member_printed(line, "demostage"),
            },
        ),
    }
}

/// Parses an event line: what it says (see `cast_event_json`), or the
/// parser's message when it is not JSON. An output line as `write_cast` writes
/// it (whose time is a JSON number) parses, giving back the time as
/// `serde_json` prints it, the kind `o` and the data.
fn parse_cast_event(line: &str) -> (r: Result<CastEvent, String>)
    ensures
        match r {
            Ok(e) => cast_event_json(line@) == Some(event_view(e)),
            Err(_) => cast_event_json(line@).is_none(),
        },
        forall|time: Seq<char>, data: Seq<char>|
            #[trigger] event_line_spec(time, data) == line@ && json_number_text(time).is_some()
                ==> r.is_ok() && event_view(r->Ok_0) == (json_number_text(time), Some("o"@), Some(data)),
{
    match json_parse_error(line) {
        Some(e) => Err(e),
        None => Ok(
            CastEvent {
                time: json_number_element(line, 0),
                kind: json_str_element(line, 1),
                data: json_str_element(line, 2),
            },
        ),
    }
}

// ---------------------------------------------------------------------------
// The recording
// ---------------------------------------------------------------------------

/// A recording read from a cast: its terminal grid and title, its output
/// events as `(time, data)` with the time as the cast wrote it, and the
/// `demostage` meta of a cast made by `demo record` (as JSON text).
#[derive(Debug)]
pub struct CastRecording {
    pub cols: u16,
    pub rows: u16,
    pub title: String,
    pub events: Vec<(String, String)>,
    pub meta: Option<String>,
}

pub open spec fn recording_view(r: CastRecording) -> (
    u16,
    u16,
    Seq<char>,
    Seq<(Seq<char>, Seq<char>)>,
    Option<Seq<char>>,
) {
    (r.cols, r.rows, r.title@, r.events@.map_values(|e: (String, String)| (e.0@, e.1@)), opt_str(r.meta))
}

/// The output events among parsed event lines: those with a numeric time,
/// kind `o` and string data, in order.
pub open spec fn output_events(evs: Seq<(Option<Seq<char>>, Option<Seq<char>>, Option<Seq<char>>)>) -> Seq<
    (Seq<char>, Seq<char>),
>
    decreases evs.len(),
{
    if evs.len() == 0 {
        Seq::empty()
    } else {
        let rest = output_events(evs.drop_last());
        match evs.last() {
            (Some(t), Some(k), Some(d)) => if k == "o"@ {
                rest.push((t, d))
            } else {
                rest
            },
            _ => rest,
        }
    }
}

/// The recording of a parsed cast: an 80×24 grid where a side is missing or
/// zero, the title `demo` when there is none, the output events, the meta.
pub open spec fn cast_spec(
    h: (Option<u64>, Option<u64>, Option<Seq<char>>, Option<Seq<char>>),
    evs: Seq<(Option<Seq<char>>, Option<Seq<char>>, Option<Seq<char>>)>,
) -> (u16, u16, Seq<char>, Seq<(Seq<char>, Seq<char>)>, Option<Seq<char>>) {
    (
        cast_side(h.0, 80),
        cast_side(h.1, 24),
        match h.2 {
            Some(t) => t,
            None => "demo"@,
        },
        output_events(evs),
        h.3,
    )
}

/// The recording of a parsed header and parsed event lines.
pub fn cast_from(h: &CastHeader, evs: &[CastEvent]) -> (r: CastRecording)
    ensures
        recording_view(r) == cast_spec(header_view(*h), evs@.map_values(|e: CastEvent| event_view(e))),
{
    let ghost ev = evs@.map_values(|e: CastEvent| event_view(e));
    let (cols, rows) = cast_grid(h.width, h.height);
    let title = match &h.title {
        Some(t) => t.clone(),
        None => {
            let mut t = String::new();
            push_str(&mut t, "demo");
            assert(t@ =~= "demo"@);
            t
        },
    };
    let mut events: Vec<(String, String)> = Vec::new();
    let mut i: usize = 0;
    while i < evs.len()
        invariant
            i <= evs@.len(),
            ev == evs@.map_values(|e: CastEvent| event_view(e)),
            events@.map_values(|e: (String, String)| (e.0@, e.1@)) == output_events(ev.take(i as int)),
        decreases evs@.len() - i,
    {
        assert(ev.take(i + 1).drop_last() =~= ev.take(i as int));
        assert(ev.take(i + 1).last() == event_view(evs@[i as int]));
        let e = &evs[i];
        if let (Some(t), Some(k), Some(d)) = (&e.time, &e.kind, &e.data) {
            if str_eq(k.as_str(), "o") {
                let ghost before = events@;
                events.push((t.clone(), d.clone()));
                assert(events@.map_values(|e: (String, String)| (e.0@, e.1@)) =~= before.map_values(
                    |e: (String, String)| (e.0@, e.1@),
                ).push((t@, d@)));
            }
        }
        i += 1;
    }
    assert(ev.take(evs@.len() as int) =~= ev);
    CastRecording { cols, rows, title, events, meta: copy_opt_str(&h.meta) }
}

/// The score of a cast read without a `demostage` meta, and whether it is a
/// faithful capture: the default single-terminal score named `demo` over the
/// cast's grid, not faithful. A cast with a meta carries its score there, which
/// this does not read (`None`).
pub fn fallback_score(rec: &CastRecording) -> (r: Option<(Score, bool)>)
    ensures
        r.is_some() <==> rec.meta.is_none(),
        r matches Some((s, faithful)) ==> default_score_spec(s, "demo"@, rec.cols as int, rec.rows as int)
            && !faithful,
{
    match &rec.meta {
        Some(_) => None,
        None => Some((default_score("demo", rec.cols, rec.rows), false)),
    }
}

// ---------------------------------------------------------------------------
// Reading a cast
// ---------------------------------------------------------------------------

/// The lines of `text`, as `str::lines` gives them.
fn lines_of(text: &str) -> (r: Vec<Vec<char>>)
    ensures
        r@.map_values(|l: Vec<char>| l@) == text_lines(text@),
{
    let v = chars_of(text);
    let parts = split_pieces(&v, '\n');
    let ghost p = parts@.map_values(|q: Vec<char>| q@);
    proof {
        lemma_split_nonempty(text@, '\n');
    }
    let np = parts.len();
    let n: usize = if parts[np - 1].len() == 0 {
        np - 1
    } else {
        np
    };
    assert(p.last() == parts@[np - 1]@);
    let mut r: Vec<Vec<char>> = Vec::new();
    let mut i: usize = 0;
    while i < n
        invariant
            i <= n,
            n <= np,
            np == parts@.len(),
            p == parts@.map_values(|q: Vec<char>| q@),
            p == split_on(text@, '\n'),
            n == text_lines(text@).len(),
            r@.len() == i,
            forall|j: int| 0 <= j < i ==> (#[trigger] r@[j])@ == text_lines(text@)[j],
        decreases n - i,
    {
        let q = &parts[i];
        assert(p[i as int] == q@);
        let line = if i + 1 < np && q.len() > 0 && q[q.len() - 1] == '\r' {
            slice_of(q, 0, q.len() - 1)
        } else {
            slice_of(q, 0, q.len())
        };
        assert(q@.subrange(0, q@.len() - 1) =~= q@.drop_last());
        assert(q@.subrange(0, q@.len() as int) =~= q@);
        r.push(line);
        i += 1;
    }
    assert(r@.map_values(|l: Vec<char>| l@) =~= text_lines(text@));
    r
}

/// The parsed event lines, when all of them are JSON.
pub open spec fn parsed_events(lines: Seq<Seq<char>>) -> Seq<
    (Option<Seq<char>>, Option<Seq<char>>, Option<Seq<char>>),
> {
    lines.map_values(|l: Seq<char>| cast_event_json(l)->0)
}

/// What the reader is told of a header line as `write_cast` writes it: its
/// grid, its title and its meta as `serde_json` prints it.
pub open spec fn header_reads_back(
    line: Seq<char>,
    hv: (Option<u64>, Option<u64>, Option<Seq<char>>, Option<Seq<char>>),
) -> bool {
    forall|cols: u16, rows: u16, title: Seq<char>, meta: Seq<char>|
        #[trigger] header_line_spec(cols, rows, title, meta) == line && json_member_text(meta).is_some()
            ==> hv == (Some(cols as u64), Some(rows as u64), Some(title), json_member_text(meta))
}

/// What the reader is told of an output line as `write_cast` writes it: its
/// time as `serde_json` prints it, the kind `o` and its data.
pub open spec fn event_reads_back(
    line: Seq<char>,
    ev: (Option<Seq<char>>, Option<Seq<char>>, Option<Seq<char>>),
) -> bool {
    forall|time: Seq<char>, data: Seq<char>|
        #[trigger] event_line_spec(time, data) == line && json_number_text(time).is_some() ==> ev == (
            json_number_text(time),
            Some("o"@),
            Some(data),
        )
}

/// Output lines that all read back as written are the written events.
proof fn lemma_output_events_all(
    vs: Seq<(Option<Seq<char>>, Option<Seq<char>>, Option<Seq<char>>)>,
    events: Seq<(Seq<char>, Seq<char>)>,
)
    requires
        vs.len() == events.len(),
        forall|j: int| 0 <= j < vs.len() ==> #[trigger] vs[j] == (Some(events[j].0), Some("o"@), Some(events[j].1)),
    ensures
        output_events(vs) == events,
    decreases vs.len(),
{
    if vs.len() > 0 {
        let v1 = vs.drop_last();
        let e1 = events.drop_last();
        assert forall|j: int| 0 <= j < v1.len() implies #[trigger] v1[j] == (Some(e1[j].0), Some("o"@), Some(e1[j].1)) by {
            assert(v1[j] == vs[j]);
        }
        lemma_output_events_all(v1, e1);
        assert(vs.last() == vs[vs.len() - 1]);
        assert(e1.push(events.last()) =~= events);
    } else {
        assert(events =~= Seq::<(Seq<char>, Seq<char>)>::empty());
    }
}

/// A cast as `write_cast` writes it, with a nonzero grid, and whose meta and
/// times read back: where the reader was told of each line what the parser
/// shows for a line of that shape, the recording is the one written.
proof fn lemma_reads_back(
    text: Seq<char>,
    hv: (Option<u64>, Option<u64>, Option<Seq<char>>, Option<Seq<char>>),
    vs: Seq<(Option<Seq<char>>, Option<Seq<char>>, Option<Seq<char>>)>,
    cols: u16,
    rows: u16,
    title: Seq<char>,
    meta: Seq<char>,
    events: Seq<(Seq<char>, Seq<char>)>,
)
    requires
        cast_text_spec(cols, rows, title, meta, events) == text,
        cols > 0,
        rows > 0,
        reads_back(meta, events),
        header_reads_back(text_lines(text)[0], hv),
        vs.len() == event_lines(text_lines(text)).len(),
        forall|j: int| 0 <= j < vs.len() ==> event_reads_back(event_lines(text_lines(text))[j], #[trigger] vs[j]),
    ensures
        cast_spec(hv, vs) == (cols, rows, title, events, json_member_text(meta)),
{
    lemma_written_lines(cols, rows, title, meta, events);
    let h = header_line_spec(cols, rows, title, meta);
    assert(text_lines(text)[0] == h);
    assert(hv == (Some(cols as u64), Some(rows as u64), Some(title), json_member_text(meta)));
    assert(cast_side(Some(cols as u64), 80) == cols);
    assert(cast_side(Some(rows as u64), 24) == rows);
    assert forall|j: int| 0 <= j < vs.len() implies #[trigger] vs[j] == (
        Some(events[j].0),
        Some("o"@),
        Some(events[j].1),
    ) by {
        assert(event_reads_back(event_lines(text_lines(text))[j], vs[j]));
        assert(event_lines(text_lines(text))[j] == event_line_spec(events[j].0, events[j].1));
        assert(reads_back(meta, events));
        assert(json_number_text(events[j].0) == Some(events[j].0));
    }
    lemma_output_events_all(vs, events);
}

/// Reads a cast. It is refused with `empty cast` when the text has no line,
/// with `cast header: <reason>` when its first line is not JSON, and with
/// `cast event: <reason>` when one of its other non-blank lines is not JSON;
/// otherwise it is the recording of what the lines say (see `cast_spec`).
/// A cast as `write_cast` writes it, with a nonzero grid, whose meta is a JSON
/// value on one line and whose times are already written as `serde_json`
/// prints them, reads back as it was written.
pub fn read_cast(text: &str) -> (r: Result<CastRecording, crate::error::Error>)
    ensures
        ({
            let lines = text_lines(text@);
            let evl = event_lines(lines);
            if lines.len() == 0 {
                r matches Err(e) && e.export_text() == Some("empty cast"@)
            } else if cast_header_json(lines[0]).is_none() {
                r matches Err(e) && e.export_text() matches Some(m) && "cast header: "@.is_prefix_of(m)
            } else if exists|i: int| 0 <= i < evl.len() && cast_event_json(evl[i]).is_none() {
                r matches Err(e) && e.export_text() matches Some(m) && "cast event: "@.is_prefix_of(m)
            } else {
                r matches Ok(rec) && recording_view(rec) == cast_spec(
                    cast_header_json(lines[0])->0,
                    parsed_events(evl),
                )
            }
        }),
        forall|cols: u16, rows: u16, title: Seq<char>, meta: Seq<char>, events: Seq<(Seq<char>, Seq<char>)>|
            #[trigger] cast_text_spec(cols, rows, title, meta, events) == text@ && cols > 0 && rows > 0
                && reads_back(meta, events) ==> r is Ok && recording_view(r->Ok_0) == (
                cols,
                rows,
                title,
                events,
                json_member_text(meta),
            ),
{
    let lines = lines_of(text);
    let ghost ls = text_lines(text@);
    assert(lines@.len() == ls.len());
    if lines.len() == 0 {
        let mut m = String::new();
        push_str(&mut m, "empty cast");
        assert(m@ =~= "empty cast"@);
        proof {
            assert forall|
                cols: u16,
                rows: u16,
                title: Seq<char>,
                meta: Seq<char>,
                events: Seq<(Seq<char>, Seq<char>)>,
            | #[trigger] cast_text_spec(cols, rows, title, meta, events) == text@ && reads_back(meta, events) implies false by {
                lemma_written_lines(cols, rows, title, meta, events);
            }
        }
        return Err(crate::error::Error::Export(m));
    }
    assert(lines@[0]@ == ls[0]);
    let head = string_of(&lines[0]);
    let h = match parse_cast_header(head.as_str()) {
        Ok(h) => h,
        Err(e) => {
            let mut m = String::new();
            push_str(&mut m, "cast header: ");
            push_str(&mut m, e.as_str());
            proof {
                reveal_strlit("cast header: ");
                assert(m@.subrange(0, 13) =~= "cast header: "@);
                assert forall|
                    cols: u16,
                    rows: u16,
                    title: Seq<char>,
                    meta: Seq<char>,
                    events: Seq<(Seq<char>, Seq<char>)>,
                | #[trigger] cast_text_spec(cols, rows, title, meta, events) == text@ && reads_back(meta, events) implies false by {
                    lemma_written_lines(cols, rows, title, meta, events);
                    assert(head@ == header_line_spec(cols, rows, title, meta));
                }
            }
            return Err(crate::error::Error::Export(m));
        },
    };
    let mut evs: Vec<CastEvent> = Vec::new();
    let ghost mut evl: Seq<Seq<char>> = Seq::empty();
    let mut i: usize = 1;
    while i < lines.len()
        invariant
            1 <= i <= lines@.len(),
            ls == text_lines(text@),
            lines@.len() == ls.len(),
            forall|j: int| 0 <= j < ls.len() ==> (#[trigger] lines@[j])@ == ls[j],
            cast_header_json(ls[0]) == Some(header_view(h)),
            header_reads_back(ls[0], header_view(h)),
            evl == event_lines(ls.take(i as int)),
            evs@.len() == evl.len(),
            forall|j: int| 0 <= j < evl.len() ==> cast_event_json(#[trigger] evl[j]) == Some(
                event_view(evs@[j]),
            ),
            forall|j: int| 0 <= j < evl.len() ==> event_reads_back(#[trigger] evl[j], event_view(evs@[j])),
        decreases lines@.len() - i,
    {
        assert(ls.take(i + 1).drop_last() =~= ls.take(i as int));
        assert(ls.take(i + 1).last() == ls[i as int]);
        let q = &lines[i];
        assert(q@ == ls[i as int]);
        let (a, b) = trim_bounds(q);
        if a < b {
            let t = string_of(&slice_of(q, a, b));
            match parse_cast_event(t.as_str()) {
                Ok(e) => {
                    proof {
                        assert(t@ == trim(ls[i as int]));
                        assert(event_lines(ls.take(i + 1)) == evl.push(t@));
                        evl = evl.push(t@);
                    }
                    evs.push(e);
                    assert(event_reads_back(evl[evl.len() - 1], event_view(evs@[evs@.len() - 1])));
                },
                Err(e) => {
                    let mut m = String::new();
                    push_str(&mut m, "cast event: ");
                    push_str(&mut m, e.as_str());
                    proof {
                        reveal_strlit("cast event: ");
                        assert(m@.subrange(0, 12) =~= "cast event: "@);
                        assert(t@ == trim(ls[i as int]));
                        assert(event_lines(ls.take(i + 1)) == evl.push(t@));
                        lemma_event_lines_prefix(ls, i as int + 1);
                        assert(ls.take(ls.len() as int) =~= ls);
                        assert(event_lines(ls)[evl.len() as int] == t@);
                        assert(cast_event_json(t@).is_none());
                        assert forall|
                            cols: u16,
                            rows: u16,
                            title: Seq<char>,
                            meta: Seq<char>,
                            events: Seq<(Seq<char>, Seq<char>)>,
                        | #[trigger] cast_text_spec(cols, rows, title, meta, events) == text@ && reads_back(
                            meta,
                            events,
                        ) implies false by {
                            lemma_written_lines(cols, rows, title, meta, events);
                            let k = evl.len() as int;
                            assert(t@ == event_line_spec(events[k].0, events[k].1));
                            assert(json_number_text(events[k].0).is_some());
                        }
                    }
                    return Err(crate::error::Error::Export(m));
                },
            }
        }
        i += 1;
    }
    assert(ls.take(ls.len() as int) =~= ls);
    assert(parsed_events(evl) =~= evs@.map_values(|e: CastEvent| event_view(e)));
    let rec = cast_from(&h, &evs);
    proof {
        let vs = evs@.map_values(|e: CastEvent| event_view(e));
        assert forall|
            cols: u16,
            rows: u16,
            title: Seq<char>,
            meta: Seq<char>,
            events: Seq<(Seq<char>, Seq<char>)>,
        | #[trigger] cast_text_spec(cols, rows, title, meta, events) == text@ && cols > 0 && rows > 0
            && reads_back(meta, events) implies recording_view(rec) == (
            cols,
            rows,
            title,
            events,
            json_member_text(meta),
        ) by {
            assert forall|j: int| 0 <= j < vs.len() implies event_reads_back(
                event_lines(text_lines(text@))[j],
                #[trigger] vs[j],
            ) by {
                assert(event_lines(text_lines(text@))[j] == evl[j]);
            }
            lemma_reads_back(text@, header_view(h), vs, cols, rows, title, meta, events);
        }
    }
    Ok(rec)
}

/// The event lines of a prefix of the lines are a prefix of the event lines.
proof fn lemma_event_lines_prefix(ls: Seq<Seq<char>>, k: int)
    requires
        1 <= k <= ls.len(),
    ensures
        event_lines(ls.take(k)).len() <= event_lines(ls).len(),
        forall|j: int|
            0 <= j < event_lines(ls.take(k)).len() ==> event_lines(ls.take(k))[j] == event_lines(
                ls,
            )[j],
    decreases ls.len() - k,
{
    if k < ls.len() {
        lemma_event_lines_prefix(ls, k + 1);
        assert(ls.take(k + 1).drop_last() =~= ls.take(k));
    } else {
        assert(ls.take(k) =~= ls);
    }
}

// ---------------------------------------------------------------------------
// Writing a cast
// ---------------------------------------------------------------------------

/// A hexadecimal digit, lower case (as `serde_json` writes `\u00XX`).
pub open spec fn hex_lower(d: int) -> char {
    if d < 10 {
        (d + 48) as char
    } else {
        (d - 10 + 97) as char
    }
}

/// How `serde_json` writes one character inside a string literal: `"` and `\`
/// escaped, the control characters with a short escape where JSON has one and
/// as `\u00XX` otherwise, every other character as itself.
pub open spec fn json_escape(c: char) -> Seq<char> {
    if c == '"' {
        seq!['\\', '"']
    } else if c == '\\' {
        seq!['\\', '\\']
    } else if c == '\u{8}' {
        seq!['\\', 'b']
    } else if c == '\t' {
        seq!['\\', 't']
    } else if c == '\n' {
        seq!['\\', 'n']
    } else if c == '\u{c}' {
        seq!['\\', 'f']
    } else if c == '\r' {
        seq!['\\', 'r']
    } else if (c as u32) < 0x20 {
        seq!['\\', 'u', '0', '0', hex_lower((c as u32) as int / 16), hex_lower((c as u32) as int % 16)]
    } else {
        seq![c]
    }
}

/// The escaped characters of `s`.
pub open spec fn json_body(s: Seq<char>) -> Seq<char>
    decreases s.len(),
{
    if s.len() == 0 {
        Seq::empty()
    } else {
        json_body(s.drop_last()) + json_escape(s.last())
    }
}

/// `s` as a JSON string literal, as `serde_json::to_string` writes a string.
pub open spec fn json_quoted(s: Seq<char>) -> Seq<char> {
    seq!['"'] + json_body(s) + seq!['"']
}

/// The value of a hexadecimal digit, in either case.
pub open spec fn hex_value(c: char) -> Option<int> {
    if '0' <= c <= '9' {
        Some(c as int - '0' as int)
    } else if 'a' <= c <= 'f' {
        Some(c as int - 'a' as int + 10)
    } else if 'A' <= c <= 'F' {
        Some(c as int - 'A' as int + 10)
    } else {
        None
    }
}

/// The character a two-character JSON escape `\x` stands for.
pub open spec fn short_escape(x: char) -> Option<char> {
    if x == '"' {
        Some('"')
    } else if x == '\\' {
        Some('\\')
    } else if x == '/' {
        Some('/')
    } else if x == 'b' {
        Some('\u{8}')
    } else if x == 'f' {
        Some('\u{c}')
    } else if x == 'n' {
        Some('\n')
    } else if x == 'r' {
        Some('\r')
    } else if x == 't' {
        Some('\t')
    } else {
        None
    }
}

/// `c` followed by what `r` decodes to.
pub open spec fn cons_decoded(c: char, r: Option<Seq<char>>) -> Option<Seq<char>> {
    match r {
        Some(t) => Some(seq![c] + t),
        None => None,
    }
}

/// What the characters between the quotes of a JSON string literal stand for
/// (RFC 8259, section 7), read from the front: `\x` escapes, `\uXXXX`
/// escapes of a code point outside the surrogates, and any other character
/// but `"`, `\` and the control characters as itself; `None` when the text
/// is no such body.
pub open spec fn json_unescape(s: Seq<char>) -> Option<Seq<char>>
    decreases s.len(),
{
    if s.len() == 0 {
        Some(Seq::empty())
    } else if s[0] == '\\' {
        if s.len() >= 2 && short_escape(s[1]).is_some() {
            cons_decoded(short_escape(s[1])->0, json_unescape(s.skip(2)))
        } else if s.len() >= 6 && s[1] == 'u' && hex_value(s[2]).is_some() && hex_value(s[3]).is_some()
            && hex_value(s[4]).is_some() && hex_value(s[5]).is_some() {
            let code = 4096 * hex_value(s[2])->0 + 256 * hex_value(s[3])->0 + 16 * hex_value(s[4])->0
                + hex_value(s[5])->0;
            if 0xd800 <= code <= 0xdfff {
                None
            } else {
                cons_decoded(code as char, json_unescape(s.skip(6)))
            }
        } else {
            None
        }
    } else if s[0] == '"' || (s[0] as u32) < 0x20 {
        None
    } else {
        cons_decoded(s[0], json_unescape(s.skip(1)))
    }
}

/// What a JSON string literal stands for: the body between its quotes,
/// decoded; `None` when it is not one.
pub open spec fn json_unquote(q: Seq<char>) -> Option<Seq<char>> {
    if q.len() >= 2 && q[0] == '"' && q.last() == '"' {
        json_unescape(q.subrange(1, q.len() - 1))
    } else {
        None
    }
}

proof fn lemma_hex_lower_value(d: int)
    requires
        0 <= d < 16,
    ensures
        hex_value(hex_lower(d)) == Some(d),
{
    if d < 10 {
        assert(hex_lower(d) as int == d + 48);
    } else {
        assert(hex_lower(d) as int == d - 10 + 97);
    }
}

/// A control character without a short escape is written `\u00XY`, where the
/// hexadecimal digits `X` and `Y` give its code: `16 * X + Y`.
pub proof fn lemma_control_escape_code(c: char)
    requires
        (c as u32) < 0x20,
        c != '\u{8}' && c != '\t' && c != '\n' && c != '\u{c}' && c != '\r',
    ensures
        json_escape(c).len() == 6,
        json_escape(c).take(4) == seq!['\\', 'u', '0', '0'],
        hex_value(json_escape(c)[4]).is_some() && hex_value(json_escape(c)[5]).is_some(),
        16 * hex_value(json_escape(c)[4])->0 + hex_value(json_escape(c)[5])->0 == c as u32,
{
    let u = (c as u32) as int;
    lemma_hex_lower_value(u / 16);
    lemma_hex_lower_value(u % 16);
    assert(json_escape(c).take(4) =~= seq!['\\', 'u', '0', '0']);
}

/// One written character decodes back, ahead of whatever follows it.
proof fn lemma_unescape_one(c: char, rest: Seq<char>)
    ensures
        json_unescape(json_escape(c) + rest) == cons_decoded(c, json_unescape(rest)),
{
    let e = json_escape(c);
    let x = e + rest;
    if c == '"' || c == '\\' || c == '\u{8}' || c == '\t' || c == '\n' || c == '\u{c}' || c == '\r' {
        assert(x[0] == '\\' && x[1] == e[1]);
        assert(x.skip(2) =~= rest);
    } else if (c as u32) < 0x20 {
        let u = (c as u32) as int;
        lemma_hex_lower_value(u / 16);
        lemma_hex_lower_value(u % 16);
        assert(x[0] == '\\' && x[1] == 'u' && x[2] == '0' && x[3] == '0');
        assert(x[4] == hex_lower(u / 16) && x[5] == hex_lower(u % 16));
        assert(hex_value('0') == Some(0int));
        assert(16 * (u / 16) + u % 16 == u);
        assert(u as char == c);
        assert(x.skip(6) =~= rest);
    } else {
        assert(e == seq![c]);
        assert(x[0] == c);
        assert(x.skip(1) =~= rest);
    }
}

/// The escaped characters of a text, read from the front.
proof fn lemma_json_body_front(s: Seq<char>)
    requires
        s.len() > 0,
    ensures
        json_body(s) == json_escape(s[0]) + json_body(s.drop_first()),
    decreases s.len(),
{
    if s.len() == 1 {
        assert(s.drop_last() =~= Seq::<char>::empty());
        assert(s.drop_first() =~= Seq::<char>::empty());
        assert(json_body(s) =~= json_escape(s[0]) + json_body(s.drop_first()));
    } else {
        let s1 = s.drop_last();
        lemma_json_body_front(s1);
        assert(s1.drop_first() =~= s.drop_first().drop_last());
        assert(s.drop_first().last() == s.last());
        assert(json_body(s) =~= json_escape(s[0]) + json_body(s.drop_first()));
    }
}

/// The escaped characters of a text decode back to the text.
proof fn lemma_unescape_body(s: Seq<char>)
    ensures
        json_unescape(json_body(s)) == Some(s),
    decreases s.len(),
{
    if s.len() > 0 {
        lemma_json_body_front(s);
        lemma_unescape_body(s.drop_first());
        lemma_unescape_one(s[0], json_body(s.drop_first()));
        assert(seq![s[0]] + s.drop_first() =~= s);
    }
}

/// A text written as a JSON string literal decodes back to that text.
pub proof fn lemma_json_quoted_decodes(s: Seq<char>)
    ensures
        json_unquote(json_quoted(s)) == Some(s),
{
    let q = json_quoted(s);
    lemma_unescape_body(s);
    assert(q.subrange(1, q.len() - 1) =~= json_body(s));
}

/// A JSON string literal holds no line break: a newline in the text is
/// written `\n`.
proof fn lemma_json_body_no_newline(s: Seq<char>)
    ensures
        !json_body(s).contains('\n'),
    decreases s.len(),
{
    if s.len() > 0 {
        lemma_json_body_no_newline(s.drop_last());
        let a = json_body(s.drop_last());
        let e = json_escape(s.last());
        assert(!e.contains('\n')) by {
            let c = s.last();
            if (c as u32) < 0x20 && c != '"' && c != '\\' && c != '\u{8}' && c != '\t' && c != '\n'
                && c != '\u{c}' && c != '\r' {
                let u = (c as u32) as int;
                assert(hex_lower(u / 16) != '\n' && hex_lower(u % 16) != '\n');
            }
        }
        assert forall|i: int| 0 <= i < (a + e).len() implies (a + e)[i] != '\n' by {
            if i < a.len() {
                assert((a + e)[i] == a[i]);
            } else {
                assert((a + e)[i] == e[i - a.len()]);
            }
        }
    }
}

/// `s` as a JSON string literal (what `serde_json::to_string` gives for a
/// string).
fn json_string(s: &str) -> (r: String)
    ensures
        r@ == json_quoted(s@),
{
    let v = chars_of(s);
    let mut out = String::new();
    crate::text::push_char(&mut out, '"');
    let mut i: usize = 0;
    while i < v.len()
        invariant
            i <= v@.len(),
            v@ == s@,
            out@ == seq!['"'] + json_body(v@.take(i as int)),
        decreases v@.len() - i,
    {
        let c = v[i];
        assert(v@.take(i + 1).drop_last() =~= v@.take(i as int));
        let u = c as u32;
        if c == '"' || c == '\\' {
            crate::text::push_char(&mut out, '\\');
            crate::text::push_char(&mut out, c);
        } else if c == '\u{8}' {
            crate::text::push_char(&mut out, '\\');
            crate::text::push_char(&mut out, 'b');
        } else if c == '\t' {
            crate::text::push_char(&mut out, '\\');
            crate::text::push_char(&mut out, 't');
        } else if c == '\n' {
            crate::text::push_char(&mut out, '\\');
            crate::text::push_char(&mut out, 'n');
        } else if c == '\u{c}' {
            crate::text::push_char(&mut out, '\\');
            crate::text::push_char(&mut out, 'f');
        } else if c == '\r' {
            crate::text::push_char(&mut out, '\\');
            crate::text::push_char(&mut out, 'r');
        } else if u < 0x20 {
            crate::text::push_char(&mut out, '\\');
            crate::text::push_char(&mut out, 'u');
            crate::text::push_char(&mut out, '0');
            crate::text::push_char(&mut out, '0');
            let hi = u / 16;
            let lo = u % 16;
            let hc: char = if hi < 10 {
                (hi as u8 + 48) as char
            } else {
                (hi as u8 - 10 + 97) as char
            };
            let lc: char = if lo < 10 {
                (lo as u8 + 48) as char
            } else {
                (lo as u8 - 10 + 97) as char
            };
            assert(hc == hex_lower(u as int / 16));
            assert(lc == hex_lower(u as int % 16));
            crate::text::push_char(&mut out, hc);
            crate::text::push_char(&mut out, lc);
        } else {
            crate::text::push_char(&mut out, c);
        }
        assert(out@ =~= seq!['"'] + json_body(v@.take(i + 1)));
        i += 1;
    }
    assert(v@.take(v@.len() as int) =~= v@);
    crate::text::push_char(&mut out, '"');
    out
}

/// The header line of a cast (keys in `serde_json`'s sorted order): the
/// `demostage` meta (JSON text), the terminal type, the grid, the title and
/// the format version.
pub open spec fn header_line_spec(cols: u16, rows: u16, title: Seq<char>, meta: Seq<char>) -> Seq<char> {
    "{\"demostage\":"@ + meta + ",\"env\":{\"TERM\":\"xterm-256color\"},\"height\":"@ + decimal(
        rows as nat,
    ) + ",\"title\":"@ + json_quoted(title) + ",\"version\":2,\"width\":"@ + decimal(cols as nat)
        + "}"@
}

/// An output event line: `[time,"o",data]`, the time as given.
pub open spec fn event_line_spec(time: Seq<char>, data: Seq<char>) -> Seq<char> {
    "["@ + time + ",\"o\","@ + json_quoted(data) + "]"@
}

/// The lines after the header, each ended by a newline.
pub open spec fn event_lines_text(events: Seq<(Seq<char>, Seq<char>)>) -> Seq<char>
    decreases events.len(),
{
    if events.len() == 0 {
        Seq::empty()
    } else {
        event_lines_text(events.drop_last()) + event_line_spec(events.last().0, events.last().1)
            + "\n"@
    }
}

/// The text of a cast: its header line and a newline, then its event lines.
pub open spec fn cast_text_spec(
    cols: u16,
    rows: u16,
    title: Seq<char>,
    meta: Seq<char>,
    events: Seq<(Seq<char>, Seq<char>)>,
) -> Seq<char> {
    header_line_spec(cols, rows, title, meta) + "\n"@ + event_lines_text(events)
}

/// The event lines of a cast, one per output event.
pub open spec fn event_line_seq(events: Seq<(Seq<char>, Seq<char>)>) -> Seq<Seq<char>> {
    Seq::new(events.len(), |i: int| event_line_spec(events[i].0, events[i].1))
}

/// A cast whose meta and events read back as they were written: the meta is a
/// JSON value on one line, and each time is on one line and already written as
/// `serde_json` prints that number.
pub open spec fn reads_back(meta: Seq<char>, events: Seq<(Seq<char>, Seq<char>)>) -> bool {
    &&& json_member_text(meta).is_some()
    &&& !meta.contains('\n')
    &&& forall|i: int|
        0 <= i < events.len() ==> json_number_text((#[trigger] events[i]).0) == Some(events[i].0)
            && !events[i].0.contains('\n')
}

/// Neither half holds `c`, so the whole does not.
proof fn lemma_concat_lacks(a: Seq<char>, b: Seq<char>, c: char)
    requires
        !a.contains(c),
        !b.contains(c),
    ensures
        !(a + b).contains(c),
{
    assert forall|i: int| 0 <= i < (a + b).len() implies (a + b)[i] != c by {
        if i < a.len() {
            assert((a + b)[i] == a[i]);
        } else {
            assert((a + b)[i] == b[i - a.len()]);
        }
    }
}

/// A literal without `c` (checked character by character).
proof fn lemma_lacks(a: Seq<char>, c: char)
    requires
        forall|i: int| 0 <= i < a.len() ==> a[i] != c,
    ensures
        !a.contains(c),
{
}

/// A decimal number is digits only.
proof fn lemma_decimal_no_newline(n: nat)
    ensures
        !decimal(n).contains('\n'),
    decreases n,
{
    if n < 10 {
        assert(crate::text::digit_char(n) != '\n');
        lemma_lacks(decimal(n), '\n');
    } else {
        lemma_decimal_no_newline(n / 10);
        assert(crate::text::digit_char(n % 10) != '\n');
        lemma_lacks(seq![crate::text::digit_char(n % 10)], '\n');
        lemma_concat_lacks(decimal(n / 10), seq![crate::text::digit_char(n % 10)], '\n');
        assert(decimal(n / 10) + seq![crate::text::digit_char(n % 10)] =~= decimal(n));
    }
}

/// A JSON string literal is on one line.
proof fn lemma_json_quoted_no_newline(s: Seq<char>)
    ensures
        !json_quoted(s).contains('\n'),
{
    lemma_json_body_no_newline(s);
    lemma_lacks(seq!['"'], '\n');
    lemma_concat_lacks(seq!['"'], json_body(s), '\n');
    lemma_concat_lacks(seq!['"'] + json_body(s), seq!['"'], '\n');
}

/// A header line is one line, ending in `}`.
proof fn lemma_header_line(cols: u16, rows: u16, title: Seq<char>, meta: Seq<char>)
    requires
        !meta.contains('\n'),
    ensures
        ({
            let h = header_line_spec(cols, rows, title, meta);
            &&& !h.contains('\n')
            &&& h.len() > 0
            &&& h.last() == '}'
        }),
{
    let a = "{\"demostage\":"@;
    let b = ",\"env\":{\"TERM\":\"xterm-256color\"},\"height\":"@;
    let c = ",\"title\":"@;
    let d = ",\"version\":2,\"width\":"@;
    let e = "}"@;
    reveal_strlit("{\"demostage\":");
    reveal_strlit(",\"env\":{\"TERM\":\"xterm-256color\"},\"height\":");
    reveal_strlit(",\"title\":");
    reveal_strlit(",\"version\":2,\"width\":");
    reveal_strlit("}");
    lemma_lacks(a, '\n');
    lemma_lacks(b, '\n');
    lemma_lacks(c, '\n');
    lemma_lacks(d, '\n');
    lemma_lacks(e, '\n');
    lemma_decimal_no_newline(rows as nat);
    lemma_decimal_no_newline(cols as nat);
    lemma_json_quoted_no_newline(title);
    let x1 = a + meta;
    lemma_concat_lacks(a, meta, '\n');
    let x2 = x1 + b;
    lemma_concat_lacks(x1, b, '\n');
    let x3 = x2 + decimal(rows as nat);
    lemma_concat_lacks(x2, decimal(rows as nat), '\n');
    let x4 = x3 + c;
    lemma_concat_lacks(x3, c, '\n');
    let x5 = x4 + json_quoted(title);
    lemma_concat_lacks(x4, json_quoted(title), '\n');
    let x6 = x5 + d;
    lemma_concat_lacks(x5, d, '\n');
    let x7 = x6 + decimal(cols as nat);
    lemma_concat_lacks(x6, decimal(cols as nat), '\n');
    lemma_concat_lacks(x7, e, '\n');
    assert(header_line_spec(cols, rows, title, meta) == x7 + e);
}

/// An event line is one line, starting with `[` and ending with `]`, so
/// trimming leaves it as it is.
proof fn lemma_event_line(time: Seq<char>, data: Seq<char>)
    requires
        !time.contains('\n'),
    ensures
        ({
            let l = event_line_spec(time, data);
            &&& !l.contains('\n')
            &&& l.len() > 0
            &&& l.last() == ']'
            &&& trim(l) == l
        }),
{
    let a = "["@;
    let b = ",\"o\","@;
    let e = "]"@;
    reveal_strlit("[");
    reveal_strlit(",\"o\",");
    reveal_strlit("]");
    lemma_lacks(a, '\n');
    lemma_lacks(b, '\n');
    lemma_lacks(e, '\n');
    lemma_json_quoted_no_newline(data);
    lemma_concat_lacks(a, time, '\n');
    lemma_concat_lacks(a + time, b, '\n');
    lemma_concat_lacks(a + time + b, json_quoted(data), '\n');
    lemma_concat_lacks(a + time + b + json_quoted(data), e, '\n');
    let l = event_line_spec(time, data);
    assert(l == a + time + b + json_quoted(data) + e);
    assert(l[0] == '[');
    assert(l.last() == ']');
    assert(!crate::text::is_ws('['));
    assert(!crate::text::is_ws(']'));
    assert(crate::text::trim_start(l) == l);
    assert(crate::text::trim_end(l) == l);
}

/// The text of a cast is its lines joined by newlines, with a final newline.
proof fn lemma_cast_text_join(h: Seq<char>, events: Seq<(Seq<char>, Seq<char>)>)
    ensures
        h + "\n"@ + event_lines_text(events) == crate::text::join(
            (seq![h] + event_line_seq(events)).push(Seq::<char>::empty()),
            seq!['\n'],
        ),
    decreases events.len(),
{
    reveal_strlit("\n");
    assert("\n"@ =~= seq!['\n']);
    let ls = seq![h] + event_line_seq(events);
    assert(ls.push(Seq::<char>::empty()).drop_last() =~= ls);
    let whole = crate::text::join(ls.push(Seq::<char>::empty()), seq!['\n']);
    assert(whole == crate::text::join(ls, seq!['\n']) + seq!['\n'] + Seq::<char>::empty());
    assert(whole =~= crate::text::join(ls, seq!['\n']) + seq!['\n']);
    if events.len() == 0 {
        assert(ls =~= seq![h]);
        assert(crate::text::join(ls, seq!['\n']) == h);
        assert(event_lines_text(events) =~= Seq::<char>::empty());
        assert(h + "\n"@ + event_lines_text(events) =~= h + seq!['\n']);
    } else {
        let e1 = events.drop_last();
        lemma_cast_text_join(h, e1);
        let ls1 = seq![h] + event_line_seq(e1);
        assert(ls1.push(Seq::<char>::empty()).drop_last() =~= ls1);
        assert(ls.drop_last() =~= ls1);
        assert(ls.last() == event_line_spec(events.last().0, events.last().1));
        let j1 = crate::text::join(ls1, seq!['\n']);
        assert(crate::text::join(ls1.push(Seq::<char>::empty()), seq!['\n']) == j1 + seq!['\n'] + Seq::<
            char,
        >::empty());
        assert(h + "\n"@ + event_lines_text(e1) =~= j1 + seq!['\n']);
        let l = event_line_spec(events.last().0, events.last().1);
        assert(h + "\n"@ + event_lines_text(events) =~= (h + "\n"@ + event_lines_text(e1)) + l + "\n"@);
        assert(crate::text::join(ls, seq!['\n']) == j1 + seq!['\n'] + l);
    }
}

/// The lines of a written cast: its header line, then its event lines; past
/// the header, they are all event lines.
proof fn lemma_written_lines(
    cols: u16,
    rows: u16,
    title: Seq<char>,
    meta: Seq<char>,
    events: Seq<(Seq<char>, Seq<char>)>,
)
    requires
        reads_back(meta, events),
    ensures
        text_lines(cast_text_spec(cols, rows, title, meta, events)) == seq![
            header_line_spec(cols, rows, title, meta),
        ] + event_line_seq(events),
        event_lines(text_lines(cast_text_spec(cols, rows, title, meta, events))) == event_line_seq(
            events,
        ),
{
    let h = header_line_spec(cols, rows, title, meta);
    let ls = seq![h] + event_line_seq(events);
    let all = ls.push(Seq::<char>::empty());
    lemma_header_line(cols, rows, title, meta);
    assert forall|i: int| 0 <= i < events.len() implies ({
        let l = #[trigger] event_line_seq(events)[i];
        &&& !l.contains('\n')
        &&& l.len() > 0
        &&& l.last() == ']'
        &&& trim(l) == l
    }) by {
        assert(reads_back(meta, events));
        assert(!events[i].0.contains('\n'));
        lemma_event_line(events[i].0, events[i].1);
    }
    assert forall|i: int| 0 <= i < all.len() implies !(#[trigger] all[i]).contains('\n') by {
        if i == 0 {
        } else if i < ls.len() {
            assert(all[i] == event_line_seq(events)[i - 1]);
        } else {
            assert(all[i] =~= Seq::<char>::empty());
        }
    }
    crate::text::lemma_split_join(all, '\n');
    lemma_cast_text_join(h, events);
    let text = cast_text_spec(cols, rows, title, meta, events);
    assert(split_on(text, '\n') == all);
    assert forall|i: int| 0 <= i < ls.len() implies strip_cr(#[trigger] ls[i]) == ls[i] by {
        if i > 0 {
            assert(ls[i] == event_line_seq(events)[i - 1]);
        }
    }
    assert(text_lines(text) =~= ls);
    lemma_event_lines_of(h, event_line_seq(events));
}

/// Past a first line, lines that are non-blank and already trimmed are all
/// event lines.
proof fn lemma_event_lines_of(h: Seq<char>, ls: Seq<Seq<char>>)
    requires
        forall|i: int| 0 <= i < ls.len() ==> (#[trigger] ls[i]).len() > 0 && trim(ls[i]) == ls[i],
    ensures
        event_lines(seq![h] + ls) == ls,
    decreases ls.len(),
{
    if ls.len() > 0 {
        let l1 = ls.drop_last();
        assert forall|i: int| 0 <= i < l1.len() implies (#[trigger] l1[i]).len() > 0 && trim(l1[i]) == l1[i] by {
            assert(l1[i] == ls[i]);
        }
        lemma_event_lines_of(h, l1);
        assert((seq![h] + ls).drop_last() =~= seq![h] + l1);
        assert((seq![h] + ls).last() == ls[ls.len() - 1]);
        assert(l1.push(ls.last()) =~= ls);
    } else {
        assert(seq![h] + ls =~= seq![h]);
        assert(ls =~= Seq::<Seq<char>>::empty());
    }
}

/// A cast of `rec` whose meta is the JSON text `meta`: the header line, then
/// one line per output event, each ended by a newline. Event times are written
/// as given (the front end prints them as numbers).
pub fn write_cast(rec: &CastRecording, meta: &str) -> (r: String)
    ensures
        r@ == cast_text_spec(
            rec.cols,
            rec.rows,
            rec.title@,
            meta@,
            rec.events@.map_values(|e: (String, String)| (e.0@, e.1@)),
        ),
{
    let mut out = String::new();
    push_str(&mut out, "{\"demostage\":");
    push_str(&mut out, meta);
    push_str(&mut out, ",\"env\":{\"TERM\":\"xterm-256color\"},\"height\":");
    let rows = decimal_string(rec.rows as u64);
    push_str(&mut out, rows.as_str());
    push_str(&mut out, ",\"title\":");
    let title = json_string(rec.title.as_str());
    push_str(&mut out, title.as_str());
    push_str(&mut out, ",\"version\":2,\"width\":");
    let cols = decimal_string(rec.cols as u64);
    push_str(&mut out, cols.as_str());
    push_str(&mut out, "}");
    push_str(&mut out, "\n");
    let ghost head = out@;
    assert(head =~= header_line_spec(rec.cols, rec.rows, rec.title@, meta@) + "\n"@);
    let ghost ev = rec.events@.map_values(|e: (String, String)| (e.0@, e.1@));
    let mut i: usize = 0;
    while i < rec.events.len()
        invariant
            i <= rec.events@.len(),
            ev == rec.events@.map_values(|e: (String, String)| (e.0@, e.1@)),
            out@ == head + event_lines_text(ev.take(i as int)),
        decreases rec.events@.len() - i,
    {
        assert(ev.take(i + 1).drop_last() =~= ev.take(i as int));
        assert(ev.take(i + 1).last() == (rec.events@[i as int].0@, rec.events@[i as int].1@));
        push_str(&mut out, "[");
        push_str(&mut out, rec.events[i].0.as_str());
        push_str(&mut out, ",\"o\",");
        let d = json_string(rec.events[i].1.as_str());
        push_str(&mut out, d.as_str());
        push_str(&mut out, "]");
        push_str(&mut out, "\n");
        assert(out@ =~= head + event_lines_text(ev.take(i + 1)));
        i += 1;
    }
    assert(ev.take(rec.events@.len() as int) =~= ev);
    out
}

} // verus!
