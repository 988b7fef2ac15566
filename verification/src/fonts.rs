//! The bundled font names: the keys stored in a score's layout, the wizard's
//! display strings, and how a display string maps back to its key.

use vstd::prelude::*;
use vstd::string::StrSliceExecFns;
use crate::text::{
    before_first, before_first_end, chars_of, is_ws, lemma_trim_idempotent, lemma_trim_subrange, occurs_at,
    slice_of, trim, trim_bounds, trim_end, trim_start,
};

verus! {

broadcast use vstd::string::group_string_axioms;

/// Wizard display strings (shown in the capture prompt picker).
pub const FONT_NAMES: [&'static str; 5] = [
    "DejaVu Sans Mono   (best Unicode — MapSCII, box drawing)",
    "JetBrains Mono     (clean, modern, ligatures)",
    "IBM Plex Mono      (UniverLab landing font)",
    "Liberation Mono    (Courier New compatible)",
    "Ubuntu Mono        (compact, classic Ubuntu)",
];

/// Short key names stored in `layout.font_family`.
pub const FONT_KEYS: [&'static str; 5] = [
    "DejaVu Sans Mono",
    "JetBrains Mono",
    "IBM Plex Mono",
    "Liberation Mono",
    "Ubuntu Mono",
];

/// Default font (the first key).
pub const DEFAULT_FONT: &'static str = "DejaVu Sans Mono";

/// The separator between a font key and its description in a display string.
pub open spec fn name_gap() -> Seq<char> {
    seq![' ', ' ', ' ']
}

/// The font key of a wizard display string: the text before the first run of
/// three spaces, trimmed.
pub open spec fn font_name_spec(display: Seq<char>) -> Seq<char> {
    trim(before_first(display, name_gap()))
}

/// Parse a font key from the wizard display string:
/// `"DejaVu Sans Mono   (best Unicode …)"` gives `"DejaVu Sans Mono"`.
pub fn parse_font_name(display: &str) -> (r: &str)
    ensures
        r@ == font_name_spec(display@),
{
    let v = chars_of(display);
    let gap: Vec<char> = vec![' ', ' ', ' '];
    assert(gap@ == name_gap());
    let end = before_first_end(&v, &gap);
    assert(before_first(display@, name_gap()) == v@.subrange(0, end as int));
    let prefix = slice_of(&v, 0, end);
    let (a, b) = trim_bounds(&prefix);
    proof {
        assert(prefix@.subrange(a as int, b as int) == v@.subrange(a as int, b as int));
    }
    display.substring_char(a, b)
}

proof fn lemma_least_occurrence(s: Seq<char>, sep: Seq<char>, k: int)
    requires
        0 <= k,
        occurs_at(s, sep, k),
    ensures
        exists|i: int|
            0 <= i && occurs_at(s, sep, i) && forall|j: int| 0 <= j < i ==> !occurs_at(s, sep, j),
    decreases k,
{
    if exists|j: int| 0 <= j < k && occurs_at(s, sep, j) {
        let j = choose|j: int| 0 <= j < k && occurs_at(s, sep, j);
        lemma_least_occurrence(s, sep, j);
    } else {
        assert(0 <= k && occurs_at(s, sep, k) && forall|j: int| 0 <= j < k ==> !occurs_at(s, sep, j));
    }
}

/// What comes before the first separator holds no separator.
proof fn lemma_before_first_clean(s: Seq<char>, sep: Seq<char>)
    requires
        sep.len() > 0,
    ensures
        forall|j: int| !occurs_at(before_first(s, sep), sep, j),
{
    reveal(before_first);
    if exists|i: int| 0 <= i && occurs_at(s, sep, i) {
        let k = choose|i: int| 0 <= i && occurs_at(s, sep, i);
        lemma_least_occurrence(s, sep, k);
        let i = choose|i: int|
            0 <= i && occurs_at(s, sep, i) && forall|j: int| 0 <= j < i ==> !occurs_at(s, sep, j);
        let pre = s.subrange(0, i);
        assert forall|j: int| !occurs_at(pre, sep, j) by {
            if occurs_at(pre, sep, j) {
                assert(pre.subrange(j, j + sep.len()) =~= s.subrange(j, j + sep.len()));
                assert(occurs_at(s, sep, j));
                assert(j < i);
                assert(!occurs_at(s, sep, j));
            }
        }
    }
}

/// Reading the key of a key gives the key back: a font key holds no run of
/// three spaces and no surrounding whitespace, so `parse_font_name` leaves it
/// as it is.
pub proof fn lemma_font_name_idempotent(display: Seq<char>)
    ensures
        font_name_spec(font_name_spec(display)) == font_name_spec(display),
{
    let pre = before_first(display, name_gap());
    lemma_before_first_clean(display, name_gap());
    let (a, b) = lemma_trim_subrange(pre);
    let y = trim(pre);
    assert forall|j: int| !occurs_at(y, name_gap(), j) by {
        if occurs_at(y, name_gap(), j) {
            assert(y.subrange(j, j + 3) =~= pre.subrange(a + j, a + j + 3));
            assert(occurs_at(pre, name_gap(), a + j));
        }
    }
    reveal(before_first);
    assert(before_first(y, name_gap()) == y);
    lemma_trim_idempotent(pre);
}

/// A display string made of a key, the gap and a description reads back as
/// the key, when the key has no two spaces in a row, does not end with a
/// space, and has no whitespace at either end.
proof fn lemma_display_reads_key(key: Seq<char>, rest: Seq<char>)
    requires
        key.len() > 0,
        !is_ws(key[0]),
        !is_ws(key.last()),
        forall|j: int| 0 <= j < key.len() - 1 ==> !(#[trigger] key[j] == ' ' && key[j + 1] == ' '),
    ensures
        font_name_spec(key + name_gap() + rest) == key,
{
    let s = key + name_gap() + rest;
    let g = name_gap();
    let k = key.len() as int;
    assert(s.subrange(k, k + 3) =~= g);
    assert(occurs_at(s, g, k));
    assert forall|j: int| 0 <= j < k implies !occurs_at(s, g, j) by {
        if occurs_at(s, g, j) {
            assert(s.subrange(j, j + 3)[0] == s[j]);
            assert(s.subrange(j, j + 3)[1] == s[j + 1]);
            assert(s[j] == key[j]);
            if j + 1 < k {
                assert(s[j + 1] == key[j + 1]);
                assert(key[j] == ' ' && key[j + 1] == ' ');
            } else {
                assert(key[j] == key.last());
            }
        }
    }
    reveal(before_first);
    let i = choose|i: int|
        0 <= i && occurs_at(s, g, i) && forall|j: int| 0 <= j < i ==> !occurs_at(s, g, j);
    assert(i == k) by {
        if i < k {
            assert(!occurs_at(s, g, i));
        } else if i > k {
            assert(!occurs_at(s, g, k));
        }
    }
    assert(before_first(s, g) == s.subrange(0, k));
    assert(s.subrange(0, k) =~= key);
    assert(trim_start(key) == key);
    assert(trim_end(key) == key);
}

/// Each wizard display string reads back as its font key.
pub proof fn lemma_font_names_give_keys()
    ensures
        FONT_NAMES@.len() == FONT_KEYS@.len(),
        forall|i: int| 0 <= i < FONT_NAMES@.len() ==> font_name_spec((#[trigger] FONT_NAMES@[i])@) == FONT_KEYS@[i]@,
{
    reveal_strlit("DejaVu Sans Mono   (best Unicode — MapSCII, box drawing)");
    reveal_strlit("JetBrains Mono     (clean, modern, ligatures)");
    reveal_strlit("IBM Plex Mono      (UniverLab landing font)");
    reveal_strlit("Liberation Mono    (Courier New compatible)");
    reveal_strlit("Ubuntu Mono        (compact, classic Ubuntu)");
    reveal_strlit("DejaVu Sans Mono");
    reveal_strlit("JetBrains Mono");
    reveal_strlit("IBM Plex Mono");
    reveal_strlit("Liberation Mono");
    reveal_strlit("Ubuntu Mono");
    assert forall|i: int| 0 <= i < FONT_NAMES@.len() implies font_name_spec((#[trigger] FONT_NAMES@[i])@)
        == FONT_KEYS@[i]@ by {
        let name = FONT_NAMES@[i]@;
        let key = FONT_KEYS@[i]@;
        let k = key.len() as int;
        assert(forall|j: int| 0 <= j < key.len() - 1 ==> !(#[trigger] key[j] == ' ' && key[j + 1] == ' '));
        assert(!is_ws(key[0]) && !is_ws(key.last()));
        assert(name =~= key + name_gap() + name.subrange(k + 3, name.len() as int));
        lemma_display_reads_key(key, name.subrange(k + 3, name.len() as int));
    }
}

} // verus!
