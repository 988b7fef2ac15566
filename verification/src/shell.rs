//! Shell-facing text: prompt strings for bash/zsh, `PS1` escaping and
//! single-quoting for the shell.

use vstd::prelude::*;
use crate::text::{
    chars_of, ends_with, is_ascii_alpha, is_ws, lower, lower_char, lower_vec, push_char, push_str, seq_eq,
    slice_of, starts_with, trim, trim_bounds, trim_end,
};

verus! {

broadcast use vstd::string::group_string_axioms;

/// Built-in demo prompt (bash `PS1`): `user@demo:~$` with a green user@host and
/// a blue path.
pub const DEFAULT_PROMPT: &'static str = "\\[\\e[1;32m\\]user@demo\\[\\e[0m\\]:\\[\\e[1;34m\\]~\\[\\e[0m\\]$ ";

/// The zsh flavour of the built-in prompt.
pub const DEFAULT_ZSH_PROMPT: &'static str = "%B%F{green}user@demo%f%b:%B%F{blue}~%f%b$ ";

/// The shell path names zsh: it ends in `/zsh` or is exactly `zsh`.
pub open spec fn is_zsh_spec(shell: Seq<char>) -> bool {
    "/zsh"@.is_suffix_of(shell) || shell == "zsh"@
}

/// Returns true if the shell path looks like zsh.
pub fn is_zsh(shell: &str) -> (r: bool)
    ensures
        r == is_zsh_spec(shell@),
{
    let v = chars_of(shell);
    let suffix = chars_of("/zsh");
    let exact = chars_of("zsh");
    ends_with(&v, &suffix) || seq_eq(&v, &exact)
}

/// Build a shell-appropriate default prompt string.
pub fn default_prompt_for(shell: &str) -> (r: String)
    ensures
        r@ == if is_zsh_spec(shell@) {
            DEFAULT_ZSH_PROMPT@
        } else {
            DEFAULT_PROMPT@
        },
{
    if is_zsh(shell) {
        DEFAULT_ZSH_PROMPT.to_string()
    } else {
        DEFAULT_PROMPT.to_string()
    }
}

/// `PS1` escaping: every backslash doubled, everything else kept.
pub open spec fn ps1_escape(s: Seq<char>) -> Seq<char>
    decreases s.len(),
{
    if s.len() == 0 {
        seq![]
    } else {
        ps1_escape(s.drop_last()) + if s.last() == '\\' {
            seq!['\\', '\\']
        } else {
            seq![s.last()]
        }
    }
}

/// Escape a user-entered label for a bash `PS1`: a literal backslash is
/// doubled, else bash would read it as a prompt escape (`\d`, `\w`, …).
pub fn ps1_text(s: &str) -> (r: String)
    ensures
        r@ == ps1_escape(s@),
{
    let v = chars_of(s);
    let mut out = String::new();
    let mut i: usize = 0;
    while i < v.len()
        invariant
            i <= v.len(),
            v@ == s@,
            out@ == ps1_escape(v@.take(i as int)),
        decreases v.len() - i,
    {
        let c = v[i];
        assert(v@.take(i + 1).drop_last() =~= v@.take(i as int));
        if c == '\\' {
            push_char(&mut out, '\\');
            push_char(&mut out, '\\');
            assert(out@ =~= ps1_escape(v@.take(i as int)) + seq!['\\', '\\']);
        } else {
            push_char(&mut out, c);
            assert(out@ =~= ps1_escape(v@.take(i as int)) + seq![c]);
        }
        i += 1;
    }
    assert(v@.take(v.len() as int) =~= v@);
    out
}

/// A coloured prompt segment: zsh `%F{colour}` markup or bash `\[\e[..m\]`.
pub open spec fn colored_spec(
    shell: Seq<char>,
    ansi: Seq<char>,
    zsh_col: Seq<char>,
    text: Seq<char>,
) -> Seq<char> {
    if is_zsh_spec(shell) {
        "%B%F{"@ + zsh_col + "}"@ + text + "%f%b"@
    } else {
        "\\[\\e["@ + ansi + "m\\]"@ + text + "\\[\\e[0m\\]"@
    }
}

/// Build a prompt string with coloured segments for the detected shell.
pub fn colored(shell: &str, ansi: &str, zsh_col: &str, text: &str) -> (r: String)
    ensures
        r@ == colored_spec(shell@, ansi@, zsh_col@, text@),
{
    if is_zsh(shell) {
        let mut s = "%B%F{".to_string();
        push_str(&mut s, zsh_col);
        push_str(&mut s, "}");
        push_str(&mut s, text);
        push_str(&mut s, "%f%b");
        s
    } else {
        let mut s = "\\[\\e[".to_string();
        push_str(&mut s, ansi);
        push_str(&mut s, "m\\]");
        push_str(&mut s, text);
        push_str(&mut s, "\\[\\e[0m\\]");
        s
    }
}

/// The default prompt: a green `user@demo`, `:`, a blue `~`, then `$ `.
pub open spec fn default_prompt_spec(shell: Seq<char>) -> Seq<char> {
    colored_spec(shell, "1;32"@, "green"@, "user@demo"@) + ":"@ + colored_spec(
        shell,
        "1;34"@,
        "blue"@,
        "~"@,
    ) + "$ "@
}

/// Default prompt for the given shell.
pub fn default_prompt(shell: &str) -> (r: String)
    ensures
        r@ == default_prompt_spec(shell@),
{
    let user = colored(shell, "1;32", "green", "user@demo");
    let path = colored(shell, "1;34", "blue", "~");
    let mut s = user;
    push_str(&mut s, ":");
    push_str(&mut s, path.as_str());
    push_str(&mut s, "$ ");
    s
}

/// The body of a single-quoted shell word: each `'` becomes `'\''`.
pub open spec fn sq_body(s: Seq<char>) -> Seq<char>
    decreases s.len(),
{
    if s.len() == 0 {
        seq![]
    } else {
        sq_body(s.drop_last()) + if s.last() == '\'' {
            seq!['\'', '\\', '\'', '\'']
        } else {
            seq![s.last()]
        }
    }
}

/// Single-quote `s` for the shell so any content (colour escapes, `$`, quotes)
/// is passed through literally.
pub fn sh_single_quote(s: &str) -> (r: String)
    ensures
        r@ == seq!['\''] + sq_body(s@) + seq!['\''],
{
    let v = chars_of(s);
    let mut out = String::new();
    push_char(&mut out, '\'');
    let mut i: usize = 0;
    while i < v.len()
        invariant
            i <= v.len(),
            v@ == s@,
            out@ == seq!['\''] + sq_body(v@.take(i as int)),
        decreases v.len() - i,
    {
        let c = v[i];
        assert(v@.take(i + 1).drop_last() =~= v@.take(i as int));
        if c == '\'' {
            push_char(&mut out, '\'');
            push_char(&mut out, '\\');
            push_char(&mut out, '\'');
            push_char(&mut out, '\'');
            assert(out@ =~= seq!['\''] + sq_body(v@.take(i as int)) + seq![
                '\'',
                '\\',
                '\'',
                '\'',
            ]);
        } else {
            push_char(&mut out, c);
            assert(out@ =~= seq!['\''] + sq_body(v@.take(i as int)) + seq![c]);
        }
        assert(sq_body(v@.take(i + 1)) == sq_body(v@.take(i as int)) + if c == '\'' {
            seq!['\'', '\\', '\'', '\'']
        } else {
            seq![c]
        });
        i += 1;
    }
    assert(v@.take(v.len() as int) =~= v@);
    push_char(&mut out, '\'');
    out
}

/// A string without single quotes is quoted verbatim: `'` + s + `'`.
pub proof fn lemma_sq_body_no_quotes(s: Seq<char>)
    requires
        !s.contains('\''),
    ensures
        sq_body(s) == s,
    decreases s.len(),
{
    if s.len() > 0 {
        assert(!s.drop_last().contains('\'')) by {
            if s.drop_last().contains('\'') {
                let k = choose|k: int| 0 <= k < s.drop_last().len() && s.drop_last()[k] == '\'';
                assert(s[k] == '\'');
            }
        }
        lemma_sq_body_no_quotes(s.drop_last());
        assert(s.last() != '\'') by {
            assert(s[s.len() - 1] == s.last());
        }
        assert(s.drop_last() + seq![s.last()] =~= s);
    }
}

/// Where a POSIX shell is while it reads a word: plain text, inside single
/// quotes, or just after a backslash.
#[derive(Debug, Clone, Copy, PartialEq, Eq, Structural)]
pub enum WordState {
    Plain,
    Quoted,
    Escaped,
}

/// One character of a word read by the shell (only quoting and escaping; no
/// expansions), with the text read so far.
pub open spec fn word_step(st: (WordState, Seq<char>), c: char) -> (WordState, Seq<char>) {
    match st.0 {
        WordState::Plain => if c == '\'' {
            (WordState::Quoted, st.1)
        } else if c == '\\' {
            (WordState::Escaped, st.1)
        } else {
            (WordState::Plain, st.1.push(c))
        },
        WordState::Quoted => if c == '\'' {
            (WordState::Plain, st.1)
        } else {
            (WordState::Quoted, st.1.push(c))
        },
        WordState::Escaped => (WordState::Plain, st.1.push(c)),
    }
}

/// The shell's reading of `cs`, from state `st`.
pub open spec fn word_read_from(st: (WordState, Seq<char>), cs: Seq<char>) -> (WordState, Seq<char>)
    decreases cs.len(),
{
    if cs.len() == 0 {
        st
    } else {
        word_step(word_read_from(st, cs.drop_last()), cs.last())
    }
}

/// The shell's reading of the word `cs`: its final state and its text.
pub open spec fn word_read(cs: Seq<char>) -> (WordState, Seq<char>) {
    word_read_from((WordState::Plain, Seq::empty()), cs)
}

proof fn lemma_word_read_concat(st: (WordState, Seq<char>), a: Seq<char>, b: Seq<char>)
    ensures
        word_read_from(st, a + b) == word_read_from(word_read_from(st, a), b),
    decreases b.len(),
{
    if b.len() > 0 {
        lemma_word_read_concat(st, a, b.drop_last());
        assert((a + b).drop_last() =~= a + b.drop_last());
        assert((a + b).last() == b.last());
    } else {
        assert(a + b =~= a);
    }
}

proof fn lemma_word_read_body(acc: Seq<char>, s: Seq<char>)
    ensures
        word_read_from((WordState::Quoted, acc), sq_body(s)) == (WordState::Quoted, acc + s),
    decreases s.len(),
{
    if s.len() == 0 {
        assert(acc + s =~= acc);
    } else {
        let p = s.drop_last();
        let c = s.last();
        lemma_word_read_body(acc, p);
        let piece = if c == '\'' {
            seq!['\'', '\\', '\'', '\'']
        } else {
            seq![c]
        };
        lemma_word_read_concat((WordState::Quoted, acc), sq_body(p), piece);
        let mid = (WordState::Quoted, acc + p);
        if c == '\'' {
            assert(piece.drop_last().drop_last().drop_last() =~= seq!['\'']);
            assert(piece.drop_last().drop_last() =~= seq!['\'', '\\']);
            assert(piece.drop_last() =~= seq!['\'', '\\', '\'']);
            assert(seq!['\''].drop_last() =~= Seq::<char>::empty());
            reveal_with_fuel(word_read_from, 5);
            assert(word_read_from(mid, piece) == (WordState::Quoted, (acc + p).push('\'')));
        } else {
            assert(piece.drop_last() =~= Seq::<char>::empty());
            assert(piece.last() == c);
            assert(word_read_from(mid, piece.drop_last()) == mid);
            assert(word_read_from(mid, piece) == (WordState::Quoted, (acc + p).push(c)));
        }
        assert((acc + p).push(c) =~= acc + s);
    }
}

/// Quoting is exact: the shell reads `sh_single_quote(s)` back as the single
/// word `s`, whatever quotes, backslashes or `$` it holds, and ends outside
/// any quote.
pub proof fn lemma_single_quote_reads_back(s: Seq<char>)
    ensures
        word_read(seq!['\''] + sq_body(s) + seq!['\'']) == (WordState::Plain, s),
{
    let init = (WordState::Plain, Seq::<char>::empty());
    lemma_word_read_concat(init, seq!['\''] + sq_body(s), seq!['\'']);
    lemma_word_read_concat(init, seq!['\''], sq_body(s));
    let one = seq!['\''];
    assert(one.drop_last() =~= Seq::<char>::empty());
    assert(one.last() == '\'');
    assert(word_read_from(init, one.drop_last()) == init);
    assert(word_read_from(init, one) == (WordState::Quoted, Seq::<char>::empty()));
    lemma_word_read_body(Seq::empty(), s);
    assert(Seq::<char>::empty() + s =~= s);
    let q = (WordState::Quoted, s);
    assert(word_read_from(q, one.drop_last()) == q);
    assert(word_read_from(q, one) == (WordState::Plain, s));
}

// ---------------------------------------------------------------------------
// Keys
// ---------------------------------------------------------------------------

/// The UTF-8 encoding of `c`.
pub open spec fn utf8_bytes(c: char) -> Seq<u8> {
    let u = c as int;
    if u < 0x80 {
        seq![u as u8]
    } else if u < 0x800 {
        seq![(0xc0 + u / 64) as u8, (0x80 + u % 64) as u8]
    } else if u < 0x10000 {
        seq![(0xe0 + u / 4096) as u8, (0x80 + (u / 64) % 64) as u8, (0x80 + u % 64) as u8]
    } else {
        seq![
            (0xf0 + u / 262144) as u8,
            (0x80 + (u / 4096) % 64) as u8,
            (0x80 + (u / 64) % 64) as u8,
            (0x80 + u % 64) as u8,
        ]
    }
}

/// `utf8_bytes` is the standard UTF-8 encoding of a character.
pub proof fn lemma_utf8_bytes_standard(c: char)
    ensures
        utf8_bytes(c) == vstd::utf8::encode_scalar(c as u32),
{
    let v = c as u32;
    assert(v as int == c as int);
    if v < 0x80 {
        assert(vstd::utf8::leading_byte_width_1(v) == v as u8) by (bit_vector)
            requires
                v < 0x80,
        ;
    } else if v < 0x800 {
        assert(vstd::utf8::leading_byte_width_2(v) == (0xc0 + v / 64) as u8) by (bit_vector)
            requires
                0x80 <= v < 0x800,
        ;
        assert(vstd::utf8::last_continuation_byte(v) == (0x80 + v % 64) as u8) by (bit_vector);
    } else if v < 0x10000 {
        assert(0xd800 > v || v > 0xdfff);
        assert(vstd::utf8::leading_byte_width_3(v) == (0xe0 + v / 4096) as u8) by (bit_vector)
            requires
                0x800 <= v < 0x10000,
        ;
        assert(vstd::utf8::second_last_continuation_byte(v) == (0x80 + (v / 64) % 64) as u8)
            by (bit_vector);
        assert(vstd::utf8::last_continuation_byte(v) == (0x80 + v % 64) as u8) by (bit_vector);
    } else {
        assert(v <= 0x10ffff);
        assert(vstd::utf8::leading_byte_width_4(v) == (0xf0 + v / 262144) as u8) by (bit_vector)
            requires
                0x10000 <= v <= 0x10ffff,
        ;
        assert(vstd::utf8::third_last_continuation_byte(v) == (0x80 + (v / 4096) % 64) as u8)
            by (bit_vector);
        assert(vstd::utf8::second_last_continuation_byte(v) == (0x80 + (v / 64) % 64) as u8)
            by (bit_vector);
        assert(vstd::utf8::last_continuation_byte(v) == (0x80 + v % 64) as u8) by (bit_vector);
    }
}

fn utf8_encode(c: char) -> (r: Vec<u8>)
    ensures
        r@ == utf8_bytes(c),
{
    let u: u32 = c as u32;
    let r = if u < 0x80 {
        vec![u as u8]
    } else if u < 0x800 {
        vec![(0xc0 + u / 64) as u8, (0x80 + u % 64) as u8]
    } else if u < 0x10000 {
        vec![(0xe0 + u / 4096) as u8, (0x80 + (u / 64) % 64) as u8, (0x80 + u % 64) as u8]
    } else {
        vec![
            (0xf0 + u / 262144) as u8,
            (0x80 + (u / 4096) % 64) as u8,
            (0x80 + (u / 64) % 64) as u8,
            (0x80 + u % 64) as u8,
        ]
    };
    assert(r@ =~= utf8_bytes(c));
    r
}

/// The bytes a terminal expects for a key, read case-insensitively (ASCII
/// letters lowered first): the named keys and `ctrl+<letter>` as their codes,
/// any other single character as itself (lowered), and Enter for anything
/// else.
pub open spec fn key_bytes_spec(key: Seq<char>) -> Seq<u8> {
    let k = lower(key);
    if k == "enter"@ || k == "return"@ || k == "\\n"@ {
        seq![13u8]
    } else if k == "tab"@ {
        seq![9u8]
    } else if k == "space"@ {
        seq![32u8]
    } else if k == "esc"@ || k == "escape"@ {
        seq![0x1bu8]
    } else if k == "backspace"@ {
        seq![0x7fu8]
    } else if k == "up"@ {
        seq![0x1bu8, 91, 65]
    } else if k == "down"@ {
        seq![0x1bu8, 91, 66]
    } else if k == "right"@ {
        seq![0x1bu8, 91, 67]
    } else if k == "left"@ {
        seq![0x1bu8, 91, 68]
    } else if k == "ctrl+c"@ {
        seq![3u8]
    } else if k == "ctrl+d"@ {
        seq![4u8]
    } else if k == "ctrl+u"@ {
        seq![0x15u8]
    } else if k == "ctrl+l"@ {
        seq![0x0cu8]
    } else if "ctrl+"@.is_prefix_of(k) && k.len() > 5 && is_ascii_alpha(k[5]) {
        seq![((lower_char(k[5]) as int) - 97 + 1) as u8]
    } else if k.len() == 1 {
        utf8_bytes(k[0])
    } else {
        seq![13u8]
    }
}

/// The terminal code of each named key, whatever the letter case it is
/// written in: Enter and Return send CR, Tab HT, Space a space, Esc ESC,
/// Backspace DEL; the arrows send `ESC [ A` (up), `ESC [ B` (down),
/// `ESC [ C` (right) and `ESC [ D` (left); `ctrl+c`, `ctrl+d`, `ctrl+u` and
/// `ctrl+l` send ETX, EOT, NAK and FF.
pub proof fn lemma_named_key_codes(key: Seq<char>)
    ensures
        lower(key) == "enter"@ || lower(key) == "return"@ || lower(key) == "\\n"@ ==> key_bytes_spec(key)
            == seq![0x0du8],
        lower(key) == "tab"@ ==> key_bytes_spec(key) == seq![0x09u8],
        lower(key) == "space"@ ==> key_bytes_spec(key) == seq![0x20u8],
        lower(key) == "esc"@ || lower(key) == "escape"@ ==> key_bytes_spec(key) == seq![0x1bu8],
        lower(key) == "backspace"@ ==> key_bytes_spec(key) == seq![0x7fu8],
        lower(key) == "up"@ ==> key_bytes_spec(key) == seq![0x1bu8, 0x5b, 0x41],
        lower(key) == "down"@ ==> key_bytes_spec(key) == seq![0x1bu8, 0x5b, 0x42],
        lower(key) == "right"@ ==> key_bytes_spec(key) == seq![0x1bu8, 0x5b, 0x43],
        lower(key) == "left"@ ==> key_bytes_spec(key) == seq![0x1bu8, 0x5b, 0x44],
        lower(key) == "ctrl+c"@ ==> key_bytes_spec(key) == seq![0x03u8],
        lower(key) == "ctrl+d"@ ==> key_bytes_spec(key) == seq![0x04u8],
        lower(key) == "ctrl+u"@ ==> key_bytes_spec(key) == seq![0x15u8],
        lower(key) == "ctrl+l"@ ==> key_bytes_spec(key) == seq![0x0cu8],
{
    reveal_strlit("enter");
    reveal_strlit("return");
    reveal_strlit("\\n");
    reveal_strlit("tab");
    reveal_strlit("space");
    reveal_strlit("esc");
    reveal_strlit("escape");
    reveal_strlit("backspace");
    reveal_strlit("up");
    reveal_strlit("down");
    reveal_strlit("right");
    reveal_strlit("left");
    reveal_strlit("ctrl+c");
    reveal_strlit("ctrl+d");
    reveal_strlit("ctrl+u");
    reveal_strlit("ctrl+l");
    let k = lower(key);
    if k == "enter"@ {
        assert(k.len() == 5 && k[0] == 'e' && k[1] == 'n' && k[2] == 't' && k[3] == 'e' && k[4] == 'r');
    }
    if k == "return"@ {
        assert(k.len() == 6 && k[0] == 'r' && k[1] == 'e' && k[2] == 't' && k[3] == 'u' && k[4] == 'r' && k[5] == 'n');
    }
    if k == "tab"@ {
        assert(k.len() == 3 && k[0] == 't' && k[1] == 'a' && k[2] == 'b');
    }
    if k == "space"@ {
        assert(k.len() == 5 && k[0] == 's' && k[1] == 'p' && k[2] == 'a' && k[3] == 'c' && k[4] == 'e');
    }
    if k == "esc"@ {
        assert(k.len() == 3 && k[0] == 'e' && k[1] == 's' && k[2] == 'c');
    }
    if k == "escape"@ {
        assert(k.len() == 6 && k[0] == 'e' && k[1] == 's' && k[2] == 'c' && k[3] == 'a' && k[4] == 'p' && k[5] == 'e');
    }
    if k == "backspace"@ {
        assert(k.len() == 9 && k[0] == 'b' && k[1] == 'a' && k[2] == 'c' && k[3] == 'k' && k[4] == 's' && k[5] == 'p' && k[6] == 'a' && k[7] == 'c' && k[8] == 'e');
    }
    if k == "up"@ {
        assert(k.len() == 2 && k[0] == 'u' && k[1] == 'p');
    }
    if k == "down"@ {
        assert(k.len() == 4 && k[0] == 'd' && k[1] == 'o' && k[2] == 'w' && k[3] == 'n');
    }
    if k == "right"@ {
        assert(k.len() == 5 && k[0] == 'r' && k[1] == 'i' && k[2] == 'g' && k[3] == 'h' && k[4] == 't');
    }
    if k == "left"@ {
        assert(k.len() == 4 && k[0] == 'l' && k[1] == 'e' && k[2] == 'f' && k[3] == 't');
    }
    if k == "ctrl+c"@ {
        assert(k.len() == 6 && k[0] == 'c' && k[1] == 't' && k[2] == 'r' && k[3] == 'l' && k[4] == '+' && k[5] == 'c');
    }
    if k == "ctrl+d"@ {
        assert(k.len() == 6 && k[0] == 'c' && k[1] == 't' && k[2] == 'r' && k[3] == 'l' && k[4] == '+' && k[5] == 'd');
    }
    if k == "ctrl+u"@ {
        assert(k.len() == 6 && k[0] == 'c' && k[1] == 't' && k[2] == 'r' && k[3] == 'l' && k[4] == '+' && k[5] == 'u');
    }
    if k == "ctrl+l"@ {
        assert(k.len() == 6 && k[0] == 'c' && k[1] == 't' && k[2] == 'r' && k[3] == 'l' && k[4] == '+' && k[5] == 'l');
    }
}

/// `ctrl+<letter>`, in any letter case, sends the letter's control code: its
/// place in the alphabet (`a` is 1, `z` is 26); what follows the letter does
/// not matter.
pub proof fn lemma_ctrl_letter_code(key: Seq<char>, c: char, rest: Seq<char>)
    requires
        lower(key) == "ctrl+"@ + seq![c] + rest,
        'a' <= c <= 'z',
    ensures
        key_bytes_spec(key) == seq![((c as u32) - ('a' as u32) + 1) as u8],
{
    reveal_strlit("ctrl+");
    reveal_strlit("enter");
    reveal_strlit("return");
    reveal_strlit("\\n");
    reveal_strlit("tab");
    reveal_strlit("space");
    reveal_strlit("esc");
    reveal_strlit("escape");
    reveal_strlit("backspace");
    reveal_strlit("up");
    reveal_strlit("down");
    reveal_strlit("right");
    reveal_strlit("left");
    reveal_strlit("ctrl+c");
    reveal_strlit("ctrl+d");
    reveal_strlit("ctrl+u");
    reveal_strlit("ctrl+l");
    let k = lower(key);
    assert(k.len() == 6 + rest.len() && k[5] == c && k[0] == 'c' && k[4] == '+');
    assert(k != "enter"@ && k != "return"@ && k != "\\n"@ && k != "tab"@ && k != "space"@);
    assert(k != "esc"@ && k != "escape"@ && k != "backspace"@ && k != "up"@ && k != "down"@);
    assert(k != "right"@ && k != "left"@);
    if rest.len() > 0 {
        assert(k.len() != 6);
    } else if c == 'c' {
        assert(k =~= "ctrl+c"@);
    } else if c == 'd' {
        assert(k =~= "ctrl+d"@);
    } else if c == 'u' {
        assert(k =~= "ctrl+u"@);
    } else if c == 'l' {
        assert(k =~= "ctrl+l"@);
    } else {
        assert(k != "ctrl+c"@ && k != "ctrl+d"@ && k != "ctrl+u"@ && k != "ctrl+l"@) by {
            assert(k[5] != 'c' && k[5] != 'd' && k[5] != 'u' && k[5] != 'l');
        }
    }
    assert("ctrl+"@.is_prefix_of(k)) by {
        assert(k.subrange(0, 5) =~= "ctrl+"@);
    }
    assert(is_ascii_alpha(c));
    assert(lower_char(c) == c);
}

/// Any other single character, lowered, is sent as its UTF-8 encoding (an
/// ASCII character as its own byte).
pub proof fn lemma_single_char_key_code(key: Seq<char>, c: char)
    requires
        lower(key) == seq![c],
    ensures
        key_bytes_spec(key) == vstd::utf8::encode_utf8(seq![c]),
        (c as u32) < 0x80 ==> key_bytes_spec(key) == seq![(c as u32) as u8],
{
    lemma_utf8_bytes_standard(c);
    assert(seq![c].drop_first() =~= Seq::<char>::empty());
    assert(vstd::utf8::encode_utf8(Seq::<char>::empty()) =~= Seq::<u8>::empty());
    assert(seq![c][0] == c);
    assert(vstd::utf8::encode_utf8(seq![c]) =~= vstd::utf8::encode_scalar(c as u32));
    reveal_strlit("enter");
    reveal_strlit("return");
    reveal_strlit("\\n");
    reveal_strlit("tab");
    reveal_strlit("space");
    reveal_strlit("esc");
    reveal_strlit("escape");
    reveal_strlit("backspace");
    reveal_strlit("up");
    reveal_strlit("down");
    reveal_strlit("right");
    reveal_strlit("left");
    reveal_strlit("ctrl+c");
    reveal_strlit("ctrl+d");
    reveal_strlit("ctrl+u");
    reveal_strlit("ctrl+l");
    reveal_strlit("ctrl+");
    let k = lower(key);
    assert(k.len() == 1);
    assert(!("ctrl+"@.is_prefix_of(k)));
}

/// A key that is none of the named keys, no `ctrl+<letter>` and no single
/// character sends Enter.
pub proof fn lemma_unknown_key_is_enter(key: Seq<char>)
    requires
        lower(key) != "enter"@ && lower(key) != "return"@ && lower(key) != "\\n"@ && lower(key) != "tab"@
            && lower(key) != "space"@ && lower(key) != "esc"@ && lower(key) != "escape"@ && lower(key)
            != "backspace"@ && lower(key) != "up"@ && lower(key) != "down"@ && lower(key) != "right"@
            && lower(key) != "left"@ && lower(key) != "ctrl+c"@ && lower(key) != "ctrl+d"@ && lower(key)
            != "ctrl+u"@ && lower(key) != "ctrl+l"@,
        !(lower(key).len() > 5 && lower(key).take(5) == "ctrl+"@ && is_ascii_alpha(lower(key)[5])),
        lower(key).len() != 1,
    ensures
        key_bytes_spec(key) == seq![0x0du8],
{
    reveal_strlit("ctrl+");
    let k = lower(key);
    if "ctrl+"@.is_prefix_of(k) && k.len() > 5 {
        assert(k.take(5) =~= "ctrl+"@);
    }
}

/// The four arrow keys send four different codes.
pub proof fn lemma_arrow_keys_differ(a: Seq<char>, b: Seq<char>)
    requires
        lower(a) == "up"@ || lower(a) == "down"@ || lower(a) == "right"@ || lower(a) == "left"@,
        lower(b) == "up"@ || lower(b) == "down"@ || lower(b) == "right"@ || lower(b) == "left"@,
        lower(a) != lower(b),
    ensures
        key_bytes_spec(a) != key_bytes_spec(b),
{
    lemma_named_key_codes(a);
    lemma_named_key_codes(b);
    assert(key_bytes_spec(a)[2] != key_bytes_spec(b)[2]);
}

fn is_word(v: &Vec<char>, w: &str) -> (r: bool)
    ensures
        r == (v@ == w@),
{
    let wv = chars_of(w);
    seq_eq(v, &wv)
}

/// Translate a named key into the bytes a terminal expects.
pub fn key_to_bytes(key: &str) -> (r: Vec<u8>)
    ensures
        r@ == key_bytes_spec(key@),
{
    let kv = chars_of(key);
    let k = lower_vec(&kv);
    let r: Vec<u8> = if is_word(&k, "enter") || is_word(&k, "return") || is_word(&k, "\\n") {
        vec![13]
    } else if is_word(&k, "tab") {
        vec![9]
    } else if is_word(&k, "space") {
        vec![32]
    } else if is_word(&k, "esc") || is_word(&k, "escape") {
        vec![0x1b]
    } else if is_word(&k, "backspace") {
        vec![0x7f]
    } else if is_word(&k, "up") {
        vec![0x1b, 91, 65]
    } else if is_word(&k, "down") {
        vec![0x1b, 91, 66]
    } else if is_word(&k, "right") {
        vec![0x1b, 91, 67]
    } else if is_word(&k, "left") {
        vec![0x1b, 91, 68]
    } else if is_word(&k, "ctrl+c") {
        vec![3]
    } else if is_word(&k, "ctrl+d") {
        vec![4]
    } else if is_word(&k, "ctrl+u") {
        vec![0x15]
    } else if is_word(&k, "ctrl+l") {
        vec![0x0c]
    } else {
        let ctrl = chars_of("ctrl+");
        proof {
            reveal_strlit("ctrl+");
        }
        if starts_with(&k, &ctrl) && k.len() > 5 && (('a' <= k[5] && k[5] <= 'z') || ('A' <= k[5]
            && k[5] <= 'Z')) {
            let c = crate::text::lower_char_exec(k[5]);
            vec![((c as u32) - 97 + 1) as u8]
        } else if k.len() == 1 {
            utf8_encode(k[0])
        } else {
            vec![13]
        }
    };
    assert(r@ =~= key_bytes_spec(key@));
    r
}

// ---------------------------------------------------------------------------
// Secret prompts
// ---------------------------------------------------------------------------

/// `s` without trailing `:`, `?` and spaces.
pub open spec fn trim_end_punct(s: Seq<char>) -> Seq<char>
    decreases s.len(),
{
    if s.len() > 0 && (s.last() == ':' || s.last() == '?' || s.last() == ' ') {
        trim_end_punct(s.drop_last())
    } else {
        s
    }
}

/// The stable part of a secret's prompt label to wait for in the output: the
/// label trimmed, without its trailing punctuation, trimmed again
/// (`Vault passphrase` for `Vault passphrase:`).
pub open spec fn secret_needle_spec(prompt: Seq<char>) -> Seq<char> {
    trim(trim_end_punct(trim(prompt)))
}

/// A stable substring of a secret's prompt label to wait for in the output.
pub fn secret_needle(prompt: &str) -> (r: String)
    ensures
        r@ == secret_needle_spec(prompt@),
{
    let v = chars_of(prompt);
    let (a, b) = trim_bounds(&v);
    let t = slice_of(&v, a, b);
    let mut e: usize = t.len();
    assert(t@.take(e as int) =~= t@);
    while e > 0 && (t[e - 1] == ':' || t[e - 1] == '?' || t[e - 1] == ' ')
        invariant
            0 <= e <= t@.len(),
            trim_end_punct(t@.take(e as int)) == trim_end_punct(t@),
        decreases e,
    {
        assert(t@.take(e as int).drop_last() =~= t@.take(e - 1));
        e -= 1;
    }
    let u = slice_of(&t, 0, e);
    assert(u@ =~= t@.take(e as int));
    let (c, d) = trim_bounds(&u);
    let w = slice_of(&u, c, d);
    crate::text::string_of(&w)
}

} // verus!
