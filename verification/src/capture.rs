//! The decisions a live capture makes on the streams it bridges: which typed
//! lines are demo meta-commands to mute, which output lines are secret prompts
//! (whose answers must never be recorded), and how a secret prompt's label is
//! tidied for the score.

use vstd::prelude::*;
use vstd::utf8::{
    char_u32_cast, codepoint_width_2, codepoint_width_3, codepoint_width_4, decode_first_scalar,
    decode_utf8, is_scalar, valid_first_scalar, valid_utf8,
};
use crate::model::opt_str;
use crate::text::{
    char_width, char_width_exec, chars_of, contains, contains_seq, is_ascii_alpha,
    is_ascii_digit, is_cntrl, is_control_char, is_ws, lemma_utf8_width_push, lower, lower_vec,
    occurs_at, push_chars, seq_eq, starts_with, string_of, slice_of, trim, trim_bounds, trim_end,
    trim_end_index, trim_start, trim_start_index, utf8_width, utf8_width_exec,
};

verus! {

broadcast use vstd::string::group_string_axioms;

/// Longest a terminal line can be (in bytes) while still being tracked as a
/// possible secret prompt; longer lines are full-screen paint.
pub const MAX_PROMPT_LINE: usize = 256;

/// Lines longer than this many bytes are never secret prompts.
pub const MAX_SECRET_PROMPT_BYTES: usize = 200;

// ---------------------------------------------------------------------------
// Meta-commands
// ---------------------------------------------------------------------------

/// The typed line invokes `demo open`, `demo stop` or `demo focus`.
pub open spec fn is_meta_command_spec(line: Seq<char>) -> bool {
    let t = trim_start(line);
    "demo open"@.is_prefix_of(t) || "demo stop"@.is_prefix_of(t) || "demo focus"@.is_prefix_of(t)
}

fn is_meta_command_chars(v: &Vec<char>) -> (r: bool)
    ensures
        r == is_meta_command_spec(v@),
{
    let a = trim_start_index(v, 0);
    assert(v@.subrange(0, v@.len() as int) =~= v@);
    let t = slice_of(v, a, v.len());
    let open = chars_of("demo open");
    let stop = chars_of("demo stop");
    let focus = chars_of("demo focus");
    starts_with(&t, &open) || starts_with(&t, &stop) || starts_with(&t, &focus)
}

/// Does this typed line invoke a `demo` control command whose echo and wizard
/// must stay out of the recording?
pub fn is_meta_command(line: &str) -> (r: bool)
    ensures
        r == is_meta_command_spec(line@),
{
    let v = chars_of(line);
    is_meta_command_chars(&v)
}

// ---------------------------------------------------------------------------
// Secret prompts
// ---------------------------------------------------------------------------

/// The (lower-cased) line mentions one of the secret keywords.
pub open spec fn secret_hint(t: Seq<char>) -> bool {
    ||| contains_seq(t, "password"@)
    ||| contains_seq(t, "passphrase"@)
    ||| contains_seq(t, "passcode"@)
    ||| contains_seq(t, "secret"@)
    ||| contains_seq(t, "[sudo]"@)
    ||| contains_seq(t, "verification code"@)
    ||| contains_seq(t, "token"@)
    ||| contains_seq(t, "api key"@)
    ||| contains_seq(t, "access key"@)
    ||| contains_seq(t, "credential"@)
}

/// A line is a secret prompt when it is at most 200 bytes, ends (after
/// trailing whitespace) in `:` or `?`, and mentions a secret keyword, case
/// insensitively.
pub open spec fn is_secret_prompt_spec(line: Seq<char>) -> bool {
    &&& utf8_width(line) <= 200
    &&& {
        let t = trim_end(lower(line));
        &&& t.len() > 0
        &&& (t.last() == ':' || t.last() == '?')
        &&& secret_hint(t)
    }
}

fn contains_lit(v: &Vec<char>, lit: &str) -> (r: bool)
    ensures
        r == contains_seq(v@, lit@),
{
    let p = chars_of(lit);
    contains(v, &p)
}

fn is_secret_prompt_chars(v: &Vec<char>) -> (r: bool)
    ensures
        r == is_secret_prompt_spec(v@),
{
    if utf8_width_exec(v) > 200 {
        return false;
    }
    let low = lower_vec(v);
    let e = trim_end_index(&low, 0, low.len());
    assert(low@.subrange(0, low@.len() as int) =~= low@);
    let t = slice_of(&low, 0, e);
    if t.len() == 0 {
        return false;
    }
    let last = t[t.len() - 1];
    if !(last == ':' || last == '?') {
        return false;
    }
    contains_lit(&t, "password") || contains_lit(&t, "passphrase") || contains_lit(&t, "passcode")
        || contains_lit(&t, "secret") || contains_lit(&t, "[sudo]") || contains_lit(
        &t,
        "verification code",
    ) || contains_lit(&t, "token") || contains_lit(&t, "api key") || contains_lit(
        &t,
        "access key",
    ) || contains_lit(&t, "credential")
}

/// Heuristic: does this line look like a program prompting for a secret? A
/// typed command that merely mentions "password" is not a prompt (it does not
/// end like one), and long lines are screen paint, not prompts.
pub fn is_secret_prompt(line: &str) -> (r: bool)
    ensures
        r == is_secret_prompt_spec(line@),
{
    let v = chars_of(line);
    is_secret_prompt_chars(&v)
}

/// A line of at most 200 bytes that ends in `:` or `?` (at `end`, with only
/// whitespace after it) and names, at `at` and in any letter case, one of the
/// secret keywords is a secret prompt, so the answer typed after it is
/// redacted.
pub proof fn lemma_keyword_prompt_is_secret(line: Seq<char>, kw: Seq<char>, at: int, end: int)
    requires
        kw == "password"@ || kw == "passphrase"@ || kw == "passcode"@ || kw == "secret"@ || kw
            == "[sudo]"@ || kw == "verification code"@ || kw == "token"@ || kw == "api key"@ || kw
            == "access key"@ || kw == "credential"@,
        utf8_width(line) <= 200,
        0 <= end < line.len(),
        line[end] == ':' || line[end] == '?',
        forall|j: int| end < j < line.len() ==> is_ws(#[trigger] line[j]),
        0 <= at,
        at + kw.len() <= line.len(),
        lower(line.subrange(at, at + kw.len())) == kw,
    ensures
        is_secret_prompt_spec(line),
{
    reveal_strlit("password");
    reveal_strlit("passphrase");
    reveal_strlit("passcode");
    reveal_strlit("secret");
    reveal_strlit("[sudo]");
    reveal_strlit("verification code");
    reveal_strlit("token");
    reveal_strlit("api key");
    reveal_strlit("access key");
    reveal_strlit("credential");
    let n = kw.len() as int;
    assert(n > 0 && !is_ws(kw[n - 1]));
    let l = lower(line);
    assert forall|j: int| end < j < l.len() implies is_ws(#[trigger] l[j]) by {
        assert(is_ws(line[j]));
        assert(l[j] == crate::text::lower_char(line[j]));
    }
    assert(l[end] == line[end]);
    crate::text::lemma_trim_end_at(l, end);
    let t = trim_end(l);
    assert(l.subrange(at, at + n) =~= lower(line.subrange(at, at + n)));
    assert(l[at + n - 1] == kw[n - 1]) by {
        assert(l.subrange(at, at + n)[n - 1] == l[at + n - 1]);
    }
    assert(at + n <= end + 1);
    assert(t.subrange(at, at + n) =~= kw);
    assert(occurs_at(t, kw, at));
    assert(contains_seq(t, kw));
    assert(t.last() == l[end]);
}

/// An occurrence of `kw` in the lowered, trimmed line is one in the line, in
/// some letter case.
proof fn lemma_keyword_in_line(line: Seq<char>, kw: Seq<char>, k: int)
    requires
        kw == "password"@ || kw == "passphrase"@ || kw == "passcode"@ || kw == "secret"@ || kw == "[sudo]"@ || kw == "verification code"@ || kw == "token"@ || kw == "api key"@ || kw == "access key"@ || kw == "credential"@,
        0 <= k <= line.len(),
        contains_seq(lower(line).take(k), kw),
    ensures
        exists|kw2: Seq<char>, at: int|
            #![trigger lower(line.subrange(at, at + kw2.len()))]
            (kw2 == "password"@ || kw2 == "passphrase"@ || kw2 == "passcode"@ || kw2 == "secret"@ || kw2 == "[sudo]"@ || kw2 == "verification code"@ || kw2 == "token"@ || kw2 == "api key"@ || kw2 == "access key"@ || kw2 == "credential"@) && 0 <= at && at + kw2.len() <= line.len() && lower(line.subrange(at, at + kw2.len()))
                == kw2,
{
    let t = lower(line).take(k);
    let at = choose|at: int| occurs_at(t, kw, at);
    let n = kw.len() as int;
    assert(t.subrange(at, at + n) =~= lower(line.subrange(at, at + n)));
    assert(lower(line.subrange(at, at + kw.len())) == kw);
}

/// What makes a line a secret prompt: it is at most 200 bytes, it ends in `:`
/// or `?` (at `end`, with only whitespace after it), and it names one of the
/// secret keywords in some letter case.
pub proof fn lemma_secret_prompt_has_keyword(line: Seq<char>)
    requires
        is_secret_prompt_spec(line),
    ensures
        utf8_width(line) <= 200,
        exists|end: int|
            0 <= end < line.len() && (#[trigger] line[end] == ':' || line[end] == '?') && forall|j: int|
                end < j < line.len() ==> is_ws(#[trigger] line[j]),
        exists|kw: Seq<char>, at: int|
            #![trigger lower(line.subrange(at, at + kw.len()))]
            (kw == "password"@ || kw == "passphrase"@ || kw == "passcode"@ || kw == "secret"@ || kw == "[sudo]"@ || kw == "verification code"@ || kw == "token"@ || kw == "api key"@ || kw == "access key"@ || kw == "credential"@) && 0 <= at && at + kw.len() <= line.len() && lower(line.subrange(at, at + kw.len())) == kw,
{
    let l = lower(line);
    let k = crate::text::lemma_trim_end_tail(l);
    let end = k - 1;
    assert(l[end] == crate::text::lower_char(line[end]));
    assert(line[end] == ':' || line[end] == '?');
    assert forall|j: int| end < j < line.len() implies is_ws(#[trigger] line[j]) by {
        assert(is_ws(l[j]));
        assert(l[j] == crate::text::lower_char(line[j]));
    }
    let t = trim_end(l);
    if contains_seq(t, "password"@) {
        lemma_keyword_in_line(line, "password"@, k);
    } else if contains_seq(t, "passphrase"@) {
        lemma_keyword_in_line(line, "passphrase"@, k);
    } else if contains_seq(t, "passcode"@) {
        lemma_keyword_in_line(line, "passcode"@, k);
    } else if contains_seq(t, "secret"@) {
        lemma_keyword_in_line(line, "secret"@, k);
    } else if contains_seq(t, "[sudo]"@) {
        lemma_keyword_in_line(line, "[sudo]"@, k);
    } else if contains_seq(t, "verification code"@) {
        lemma_keyword_in_line(line, "verification code"@, k);
    } else if contains_seq(t, "token"@) {
        lemma_keyword_in_line(line, "token"@, k);
    } else if contains_seq(t, "api key"@) {
        lemma_keyword_in_line(line, "api key"@, k);
    } else if contains_seq(t, "access key"@) {
        lemma_keyword_in_line(line, "access key"@, k);
    } else if contains_seq(t, "credential"@) {
        lemma_keyword_in_line(line, "credential"@, k);
    }
}

// ---------------------------------------------------------------------------
// Cleaning a prompt label
// ---------------------------------------------------------------------------

/// Characters that can sit between `[` and the final letter of a CSI residue.
pub open spec fn is_csi_param(c: char) -> bool {
    is_ascii_digit(c) || c == ';' || c == '?'
}

/// End of the run of CSI parameter characters that starts at `j`.
pub open spec fn param_end(s: Seq<char>, j: int) -> int
    decreases s.len() - j,
{
    if 0 <= j < s.len() && is_csi_param(s[j]) {
        param_end(s, j + 1)
    } else {
        j
    }
}

pub proof fn lemma_param_end(s: Seq<char>, j: int)
    requires
        0 <= j <= s.len(),
    ensures
        j <= param_end(s, j) <= s.len(),
        forall|m: int| j <= m < param_end(s, j) ==> is_csi_param(#[trigger] s[m]),
        param_end(s, j) < s.len() ==> !is_csi_param(s[param_end(s, j)]),
    decreases s.len() - j,
{
    if 0 <= j < s.len() && is_csi_param(s[j]) {
        lemma_param_end(s, j + 1);
    }
}

/// The text from index `i` on with CSI residue removed: a `[`, parameter
/// characters (`0-9 ; ?`) and a final ASCII letter are dropped together; a `[`
/// whose parameters are not followed by a letter is kept literally.
pub open spec fn strip_csi_from(s: Seq<char>, i: int) -> Seq<char>
    decreases s.len() - i,
{
    if i < 0 || i >= s.len() {
        seq![]
    } else if s[i] == '[' {
        let k = param_end(s, i + 1);
        proof {
            lemma_param_end(s, i + 1);
        }
        if k < s.len() && is_ascii_alpha(s[k]) {
            strip_csi_from(s, k + 1)
        } else {
            s.subrange(i, k) + strip_csi_from(s, k)
        }
    } else {
        seq![s[i]] + strip_csi_from(s, i + 1)
    }
}

/// Leading prompt glyphs that the label drops.
pub open spec fn is_prompt_glyph(c: char) -> bool {
    c == '?' || c == '>' || c == '◆' || c == '●' || c == '*' || c == ' '
}

/// `trim_start_matches` of the prompt glyphs.
pub open spec fn strip_glyphs(s: Seq<char>) -> Seq<char>
    decreases s.len(),
{
    if s.len() > 0 && is_prompt_glyph(s[0]) {
        strip_glyphs(s.drop_first())
    } else {
        s
    }
}

/// The label of a captured prompt line: CSI residue removed, trimmed, leading
/// prompt glyphs dropped, trimmed again.
pub open spec fn clean_prompt_spec(s: Seq<char>) -> Seq<char> {
    trim(strip_glyphs(trim(strip_csi_from(s, 0))))
}

fn is_csi_param_exec(c: char) -> (r: bool)
    ensures
        r == is_csi_param(c),
{
    ('0' <= c && c <= '9') || c == ';' || c == '?'
}

fn strip_csi(v: &Vec<char>) -> (r: Vec<char>)
    ensures
        r@ == strip_csi_from(v@, 0),
{
    let mut out: Vec<char> = Vec::new();
    let mut i: usize = 0;
    let n = v.len();
    while i < n
        invariant
            i <= n,
            n == v.len(),
            out@ + strip_csi_from(v@, i as int) == strip_csi_from(v@, 0),
        decreases n - i,
    {
        let c = v[i];
        if c == '[' {
            let mut j = i + 1;
            proof {
                lemma_param_end(v@, i + 1);
            }
            while j < n && is_csi_param_exec(v[j])
                invariant
                    i + 1 <= j <= n,
                    n == v.len(),
                    param_end(v@, j as int) == param_end(v@, i + 1),
                decreases n - j,
            {
                j += 1;
            }
            assert(param_end(v@, j as int) == j);
            if j < n && (('A' <= v[j] && v[j] <= 'Z') || ('a' <= v[j] && v[j] <= 'z')) {
                i = j + 1;
            } else {
                let piece = slice_of(v, i, j);
                let ghost before = out@;
                out.append(&mut piece.clone());
                assert(out@ =~= before + v@.subrange(i as int, j as int));
                assert(before + strip_csi_from(v@, i as int) =~= out@ + strip_csi_from(
                    v@,
                    j as int,
                ));
                i = j;
            }
        } else {
            let ghost before = out@;
            out.push(c);
            assert(before + strip_csi_from(v@, i as int) =~= out@ + strip_csi_from(
                v@,
                i + 1,
            ));
            i += 1;
        }
    }
    assert(out@ + strip_csi_from(v@, n as int) =~= out@);
    out
}

fn is_prompt_glyph_exec(c: char) -> (r: bool)
    ensures
        r == is_prompt_glyph(c),
{
    c == '?' || c == '>' || c == '◆' || c == '●' || c == '*' || c == ' '
}

fn clean_prompt_chars(v: &Vec<char>) -> (r: Vec<char>)
    ensures
        r@ == clean_prompt_spec(v@),
{
    let s = strip_csi(v);
    let (a, b) = trim_bounds(&s);
    let t = slice_of(&s, a, b);
    let mut i: usize = 0;
    assert(t@.subrange(0, t.len() as int) =~= t@);
    while i < t.len() && is_prompt_glyph_exec(t[i])
        invariant
            i <= t.len(),
            strip_glyphs(t@.subrange(i as int, t.len() as int)) == strip_glyphs(t@),
        decreases t.len() - i,
    {
        assert(t@.subrange(i as int, t.len() as int).drop_first() =~= t@.subrange(
            i + 1,
            t.len() as int,
        ));
        i += 1;
    }
    assert(t@.subrange(0, t.len() as int) =~= t@);
    let g = slice_of(&t, i, t.len());
    let (c, d) = trim_bounds(&g);
    slice_of(&g, c, d)
}

/// Tidy a captured prompt line into a label for `demo record` to show: drop
/// ANSI CSI residue left after the ESC was stripped (`[..m` colours, `[?25h`
/// cursor codes) and the leading prompt glyphs (`? > ◆ ● *`), leaving e.g.
/// `Vault passphrase:`.
pub fn clean_prompt(s: &str) -> (r: String)
    ensures
        r@ == clean_prompt_spec(s@),
{
    let v = chars_of(s);
    let c = clean_prompt_chars(&v);
    string_of(&c)
}

// ---------------------------------------------------------------------------
// Tracking output lines for secret prompts
// ---------------------------------------------------------------------------

/// What the output watcher knows: the current line, whether a secret prompt is
/// showing, its cleaned label, and whether a completed non-secret line has been
/// seen since the last submission.
pub type WatchState = (Seq<char>, bool, Option<Seq<char>>, bool);

/// Latches the secret flag (and records the label) when `line` is a secret prompt.
pub open spec fn detect(st: WatchState) -> WatchState {
    if is_secret_prompt_spec(st.0) {
        (st.0, true, Some(clean_prompt_spec(st.0)), st.3)
    } else {
        st
    }
}

/// A line boundary (`\r` or `\n`): detect on the finished line, note a
/// completed non-secret line, and start a new line.
pub open spec fn boundary(st: WatchState) -> WatchState {
    let d = detect(st);
    let cleared = if !is_secret_prompt_spec(st.0) && st.0.len() > 0 {
        true
    } else {
        d.3
    };
    (seq![], d.1, d.2, cleared)
}

/// One output character: boundaries are handled as above, other control
/// characters are ignored, and a printable character extends the line when
/// the line still fits in `MAX_PROMPT_LINE` bytes with it.
pub open spec fn track_char(st: WatchState, c: char) -> WatchState {
    if c == '\n' || c == '\r' {
        boundary(st)
    } else if is_cntrl(c) {
        st
    } else if utf8_width(st.0) + char_width(c) <= MAX_PROMPT_LINE {
        (st.0.push(c), st.1, st.2, st.3)
    } else {
        st
    }
}

/// The tracked line never grows past `MAX_PROMPT_LINE` bytes, however long
/// the output (a full-screen paint without newlines included).
pub proof fn lemma_track_text_bounded(st: WatchState, text: Seq<char>)
    requires
        utf8_width(st.0) <= MAX_PROMPT_LINE,
    ensures
        utf8_width(track_text(st, text).0) <= MAX_PROMPT_LINE,
        utf8_width(detect(track_text(st, text)).0) <= MAX_PROMPT_LINE,
    decreases text.len(),
{
    if text.len() > 0 {
        lemma_track_text_bounded(st, text.drop_last());
        let prev = track_text(st, text.drop_last());
        lemma_utf8_width_push(prev.0, text.last());
        assert(utf8_width(Seq::<char>::empty()) == 0);
    }
}

/// The watcher after a run of output characters.
pub open spec fn track_text(st: WatchState, text: Seq<char>) -> WatchState
    decreases text.len(),
{
    if text.len() == 0 {
        st
    } else {
        track_char(track_text(st, text.drop_last()), text.last())
    }
}

/// The secret-prompt flags shared between the capture's output and input
/// sides.
pub struct SecretWatch {
    /// A secret prompt is showing: input typed now is forwarded, never recorded.
    pub sensitive: bool,
    /// The cleaned label of the secret prompt currently showing.
    pub secret_prompt: Option<String>,
    /// A completed non-secret line was seen since the last submission.
    pub prompt_cleared: bool,
}

impl SecretWatch {
    pub fn new() -> (r: SecretWatch)
        ensures
            !r.sensitive,
            r.secret_prompt.is_none(),
            !r.prompt_cleared,
    {
        SecretWatch { sensitive: false, secret_prompt: None, prompt_cleared: false }
    }

    pub open spec fn state(&self, line: Seq<char>) -> WatchState {
        (line, self.sensitive, opt_str(self.secret_prompt), self.prompt_cleared)
    }
}

/// Track the current terminal line and detect a secret prompt at each line
/// boundary, before the boundary clears the line (a prompt immediately
/// followed by `\r` is still caught), and once more at the end of the chunk
/// (a prompt may sit there without a newline yet). The cleared flag is only
/// set on completed lines.
pub fn track_and_detect(line: &mut String, text: &str, watch: &mut SecretWatch)
    ensures
        final(watch).state(final(line)@) == detect(
            track_text(old(watch).state(old(line)@), text@),
        ),
        utf8_width(old(line)@) <= MAX_PROMPT_LINE ==> utf8_width(final(line)@) <= MAX_PROMPT_LINE,
{
    let tv = chars_of(text);
    let mut lv = chars_of(line.as_str());
    let mut w = utf8_width_exec(&lv);
    let ghost st0 = watch.state(lv@);
    let mut i: usize = 0;
    while i < tv.len()
        invariant
            i <= tv.len(),
            tv@ == text@,
            st0 == old(watch).state(old(line)@),
            watch.state(lv@) == track_text(st0, tv@.take(i as int)),
            w == if utf8_width(lv@) <= usize::MAX {
                utf8_width(lv@)
            } else {
                usize::MAX as nat
            },
        decreases tv.len() - i,
    {
        let c = tv[i];
        assert(tv@.take(i + 1).drop_last() =~= tv@.take(i as int));
        if c == '\n' || c == '\r' {
            let sec = is_secret_prompt_chars(&lv);
            if sec {
                watch.sensitive = true;
                let cleaned = clean_prompt_chars(&lv);
                watch.secret_prompt = Some(string_of(&cleaned));
            }
            if !sec && lv.len() > 0 {
                watch.prompt_cleared = true;
            }
            lv = Vec::new();
            w = 0;
        } else if is_control_char(c) {
        } else {
            let cw = char_width_exec(c);
            if w <= MAX_PROMPT_LINE - cw {
                proof {
                    lemma_utf8_width_push(lv@, c);
                }
                lv.push(c);
                w = w + cw;
            }
        }
        i += 1;
    }
    assert(tv@.take(tv.len() as int) =~= tv@);
    let sec = is_secret_prompt_chars(&lv);
    if sec {
        watch.sensitive = true;
        let cleaned = clean_prompt_chars(&lv);
        watch.secret_prompt = Some(string_of(&cleaned));
    }
    proof {
        if utf8_width(old(line)@) <= MAX_PROMPT_LINE {
            lemma_track_text_bounded(st0, tv@);
        }
    }
    *line = string_of(&lv);
}

/// Whether submitting an answer to the secret prompt `prompt` records a new
/// `Secret` event: a redraw of the prompt being answered is a duplicate, but
/// once the prompt has left the screen the guard is cleared first.
pub open spec fn secret_submit_spec(
    last: Option<Seq<char>>,
    prompt_left_screen: bool,
    prompt: Seq<char>,
) -> (bool, Option<Seq<char>>) {
    let guard = if prompt_left_screen {
        None
    } else {
        last
    };
    if guard == Some(prompt) {
        (false, guard)
    } else {
        (true, Some(prompt))
    }
}

/// Decide whether a submitted secret prompt should produce a `Secret` event,
/// updating the dedup guard `last_secret_prompt`.
pub fn secret_step_on_submit(
    last_secret_prompt: &mut Option<String>,
    prompt_left_screen: bool,
    prompt: &str,
) -> (r: bool)
    ensures
        (r, opt_str(*final(last_secret_prompt))) == secret_submit_spec(
            opt_str(*old(last_secret_prompt)),
            prompt_left_screen,
            prompt@,
        ),
{
    if prompt_left_screen {
        *last_secret_prompt = None;
    }
    let is_dup = match last_secret_prompt {
        Some(s) => crate::text::str_eq(s.as_str(), prompt),
        None => false,
    };
    if !is_dup {
        *last_secret_prompt = Some(prompt.to_string());
        true
    } else {
        false
    }
}

// ---------------------------------------------------------------------------
// Routing typed input
// ---------------------------------------------------------------------------

/// Length of a UTF-8 sequence from its leading byte (a stray continuation byte
/// counts as 1).
pub open spec fn utf8_len_spec(b: u8) -> nat {
    if b < 0xc0 {
        1
    } else if b < 0xe0 {
        2
    } else if b < 0xf0 {
        3
    } else {
        4
    }
}

/// Length in bytes of a UTF-8 sequence given its leading byte. A stray
/// continuation byte (`0x80..=0xbf`, not a valid lead) is treated as length 1.
pub fn utf8_len(b: u8) -> (r: usize)
    ensures
        r == utf8_len_spec(b),
{
    if b < 0xc0 {
        1
    } else if b < 0xe0 {
        2
    } else if b < 0xf0 {
        3
    } else {
        4
    }
}

/// The first character of `s` when `s` is valid UTF-8 (what
/// `str::from_utf8(s).ok()` then `.chars().next()` gives).
pub open spec fn first_char_spec(s: Seq<u8>) -> Option<char> {
    if s.len() > 0 && valid_utf8(s) {
        Some(decode_utf8(s)[0])
    } else {
        None
    }
}

/// `char::from_u32`.
#[verifier::external_body]
pub(crate) fn char_from_u32(u: u32) -> (r: Option<char>)
    ensures
        is_scalar(u) ==> r is Some,
        r matches Some(c) ==> c as u32 == u,
{
    char::from_u32(u)
}

proof fn lemma_one_scalar(s: Seq<u8>, n: int)
    requires
        valid_first_scalar(s),
        vstd::utf8::length_of_first_scalar(s) == n,
        n == s.len(),
    ensures
        valid_utf8(s),
        decode_utf8(s) == seq![decode_first_scalar(s) as char],
{
    let rest = vstd::utf8::pop_first_scalar(s);
    assert(rest.len() == 0);
    assert(valid_utf8(rest));
    assert(decode_utf8(rest) =~= Seq::<char>::empty());
    assert(decode_utf8(s) =~= seq![decode_first_scalar(s) as char] + decode_utf8(rest));
}

/// Decodes the bytes `bs[i..end]` (at most one UTF-8 sequence, led by a
/// non-ASCII byte) to their character, or `None` when they are not valid UTF-8.
fn decode_one(bs: &[u8], i: usize, end: usize) -> (r: Option<char>)
    requires
        i < end <= bs.len(),
        end - i <= utf8_len_spec(bs@[i as int]),
        bs@[i as int] >= 0x80,
    ensures
        r == first_char_spec(bs@.subrange(i as int, end as int)),
{
    let ghost s = bs@.subrange(i as int, end as int);
    let n = end - i;
    let b0 = bs[i];
    assert(s[0] == b0);
    if b0 < 0xc2 || b0 > 0xf4 {
        // stray continuation, overlong 2-byte lead, or out-of-range lead
        proof {
            if valid_utf8(s) {
                assert(valid_first_scalar(s));
                if 0xc0 <= b0 <= 0xc1 {
                    let x1 = s[1];
                    assert(codepoint_width_2(b0, x1) < 0x80) by (bit_vector)
                        requires
                            0xc0 <= b0 <= 0xc1,
                    ;
                } else if b0 >= 0xf5 && b0 <= 0xf7 {
                    let x1 = s[1];
                    let x2 = s[2];
                    let x3 = s[3];
                    assert(codepoint_width_4(b0, x1, x2, x3) > 0x10ffff) by (bit_vector)
                        requires
                            0xf5 <= b0 <= 0xf7,
                    ;
                }
            }
        }
        return None;
    }
    if b0 < 0xe0 {
        if n < 2 {
            return None;
        }
        let b1 = bs[i + 1];
        assert(s[1] == b1);
        if !(0x80 <= b1 && b1 <= 0xbf) {
            return None;
        }
        let cp: u32 = (((b0 & 0x1f) as u32) << 6) | ((b1 & 0x3f) as u32);
        assert(cp == codepoint_width_2(b0, b1));
        assert(cp >= 0x80 && cp <= 0x7ff) by (bit_vector)
            requires
                cp == (((b0 & 0x1f) as u32) << 6) | ((b1 & 0x3f) as u32),
                0xc2 <= b0 <= 0xdf,
        ;
        proof {
            assert(valid_first_scalar(s));
            lemma_one_scalar(s, 2);
        }
        let r = char_from_u32(cp);
        proof {
            let c = r->Some_0;
            char_u32_cast(c, cp);
        }
        return r;
    }
    if b0 < 0xf0 {
        if n < 3 {
            return None;
        }
        let b1 = bs[i + 1];
        let b2 = bs[i + 2];
        assert(s[1] == b1 && s[2] == b2);
        if !(0x80 <= b1 && b1 <= 0xbf && 0x80 <= b2 && b2 <= 0xbf) {
            return None;
        }
        let cp: u32 = (((b0 & 0x0f) as u32) << 12) | (((b1 & 0x3f) as u32) << 6) | ((b2 & 0x3f) as u32);
        assert(cp == codepoint_width_3(b0, b1, b2));
        assert(cp <= 0xffff) by (bit_vector)
            requires
                cp == (((b0 & 0x0f) as u32) << 12) | (((b1 & 0x3f) as u32) << 6) | ((b2 & 0x3f) as u32),
        ;
        if cp < 0x800 || (0xd800 <= cp && cp <= 0xdfff) {
            return None;
        }
        proof {
            assert(valid_first_scalar(s));
            lemma_one_scalar(s, 3);
        }
        let r = char_from_u32(cp);
        proof {
            let c = r->Some_0;
            char_u32_cast(c, cp);
        }
        return r;
    }
    if n < 4 {
        return None;
    }
    let b1 = bs[i + 1];
    let b2 = bs[i + 2];
    let b3 = bs[i + 3];
    assert(s[1] == b1 && s[2] == b2 && s[3] == b3);
    if !(0x80 <= b1 && b1 <= 0xbf && 0x80 <= b2 && b2 <= 0xbf && 0x80 <= b3 && b3 <= 0xbf) {
        return None;
    }
    let cp: u32 = (((b0 & 0x07) as u32) << 18) | (((b1 & 0x3f) as u32) << 12) | (((b2 & 0x3f)
        as u32) << 6) | ((b3 & 0x3f) as u32);
    assert(cp == codepoint_width_4(b0, b1, b2, b3));
    if cp < 0x10000 || cp > 0x10ffff {
        return None;
    }
    proof {
        assert(valid_first_scalar(s));
        lemma_one_scalar(s, 4);
    }
    let r = char_from_u32(cp);
    proof {
        let c = r->Some_0;
        char_u32_cast(c, cp);
    }
    r
}

/// What the input watcher knows: the command line typed so far, when it was
/// started, and whether a meta-command was submitted.
pub type RouteState = (Seq<char>, Option<u64>, bool);

/// A fresh command line starts at its first printable character.
pub open spec fn mark_start(cmd: Seq<char>, start: Option<u64>, now: u64) -> Option<u64> {
    if cmd.len() == 0 {
        Some(now)
    } else {
        start
    }
}

/// End of the UTF-8 sequence led by `chunk[i]`, clipped to the chunk.
pub open spec fn seq_end(n: int, i: int, b: u8) -> int {
    if i + utf8_len_spec(b) < n {
        i + utf8_len_spec(b)
    } else {
        n
    }
}

/// The command-line state after the bytes `chunk[i..]`: Enter checks the line
/// for a meta-command and starts a new one, DEL erases the last character,
/// other control bytes leave it alone, and text (ASCII or one UTF-8
/// sequence) extends it.
pub open spec fn route_from(
    chunk: Seq<u8>,
    i: int,
    cmd: Seq<char>,
    start: Option<u64>,
    now: u64,
) -> RouteState
    decreases chunk.len() - i,
{
    if i < 0 || i >= chunk.len() {
        (cmd, start, false)
    } else {
        let b = chunk[i];
        if b == 13 || b == 10 {
            let rest = route_from(chunk, i + 1, seq![], None, now);
            (rest.0, rest.1, is_meta_command_spec(cmd) || rest.2)
        } else if b == 0x7f {
            route_from(
                chunk,
                i + 1,
                if cmd.len() > 0 {
                    cmd.drop_last()
                } else {
                    cmd
                },
                start,
                now,
            )
        } else if b < 0x20 {
            route_from(chunk, i + 1, cmd, start, now)
        } else if b >= 0x80 {
            let end = seq_end(chunk.len() as int, i, b);
            match first_char_spec(chunk.subrange(i, end)) {
                Some(c) => route_from(chunk, end, cmd.push(c), mark_start(cmd, start, now), now),
                None => route_from(chunk, end, cmd, start, now),
            }
        } else {
            route_from(chunk, i + 1, cmd.push(b as char), mark_start(cmd, start, now), now)
        }
    }
}

/// What routing a chunk of keystrokes implies for the recorder.
pub struct RouteOutcome {
    /// Bytes to forward to the PTY.
    pub to_pty: Vec<u8>,
    /// A `demo open`/`demo stop`/`demo focus` was just entered: its echo and
    /// any wizard must be excised from the recording.
    pub mute_command: bool,
}

/// Forward a keystroke chunk to the PTY and track the current command line so
/// the caller can mute demo meta-commands. Everything typed reaches the shell
/// verbatim.
pub fn route_input_chunk(
    chunk: &[u8],
    cmd_line: &mut String,
    cmd_start: &mut Option<u64>,
    now: u64,
) -> (r: RouteOutcome)
    ensures
        r.to_pty@ == chunk@,
        (final(cmd_line)@, *final(cmd_start), r.mute_command) == route_from(
            chunk@,
            0,
            old(cmd_line)@,
            *old(cmd_start),
            now,
        ),
{
    let mut to_pty: Vec<u8> = Vec::new();
    let mut mute = false;
    let mut cmd = chars_of(cmd_line.as_str());
    let mut start = *cmd_start;
    let n = chunk.len();
    let ghost total = route_from(chunk@, 0, cmd@, start, now);
    let mut i: usize = 0;
    while i < n
        invariant
            i <= n,
            n == chunk.len(),
            to_pty@ == chunk@.take(i as int),
            total == route_from(chunk@, 0, old(cmd_line)@, *old(cmd_start), now),
            total.0 == route_from(chunk@, i as int, cmd@, start, now).0,
            total.1 == route_from(chunk@, i as int, cmd@, start, now).1,
            total.2 == (mute || route_from(chunk@, i as int, cmd@, start, now).2),
        decreases n - i,
    {
        let b = chunk[i];
        if b == 13 || b == 10 {
            to_pty.push(b);
            assert(chunk@.take(i + 1) =~= chunk@.take(i as int).push(b));
            if is_meta_command_chars(&cmd) {
                mute = true;
            }
            cmd = Vec::new();
            start = None;
            assert(cmd@ =~= Seq::<char>::empty());
            i += 1;
        } else if b == 0x7f {
            to_pty.push(b);
            assert(chunk@.take(i + 1) =~= chunk@.take(i as int).push(b));
            if cmd.len() > 0 {
                cmd.pop();
            }
            i += 1;
        } else if b < 0x20 {
            to_pty.push(b);
            assert(chunk@.take(i + 1) =~= chunk@.take(i as int).push(b));
            i += 1;
        } else if b >= 0x80 {
            let seq_len = utf8_len(b);
            let end = if seq_len < n - i {
                i + seq_len
            } else {
                n
            };
            let mut k = i;
            while k < end
                invariant
                    i <= k <= end,
                    end <= n,
                    n == chunk.len(),
                    to_pty@ == chunk@.take(k as int),
                decreases end - k,
            {
                to_pty.push(chunk[k]);
                assert(chunk@.take(k + 1) =~= chunk@.take(k as int).push(chunk@[k as int]));
                k += 1;
            }
            let decoded = decode_one(chunk, i, end);
            match decoded {
                Some(ch) => {
                    if cmd.len() == 0 {
                        start = Some(now);
                    }
                    cmd.push(ch);
                },
                None => {},
            }
            i = end;
        } else {
            to_pty.push(b);
            assert(chunk@.take(i + 1) =~= chunk@.take(i as int).push(b));
            if cmd.len() == 0 {
                start = Some(now);
            }
            cmd.push(b as char);
            i += 1;
        }
    }
    assert(chunk@.take(n as int) =~= chunk@);
    *cmd_line = string_of(&cmd);
    *cmd_start = start;
    RouteOutcome { to_pty, mute_command: mute }
}

} // verus!
