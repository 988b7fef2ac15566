//! Character-level text helpers: views of `str`/`String` as `Seq<char>`,
//! conversions, and the small character classes the rest of the crate uses.

use vstd::prelude::*;
use vstd::string::StringExecFns;

verus! {

broadcast use vstd::string::group_string_axioms;

// ---------------------------------------------------------------------------
// Character classes
// ---------------------------------------------------------------------------

/// Unicode `White_Space` (what `char::is_whitespace` and `str::trim` use).
pub open spec fn is_ws(c: char) -> bool {
    let u = c as u32;
    ||| 0x09 <= u <= 0x0d
    ||| u == 0x20
    ||| u == 0x85
    ||| u == 0xa0
    ||| u == 0x1680
    ||| 0x2000 <= u <= 0x200a
    ||| u == 0x2028
    ||| u == 0x2029
    ||| u == 0x202f
    ||| u == 0x205f
    ||| u == 0x3000
}

/// Unicode general category `Cc` (what `char::is_control` tests).
pub open spec fn is_cntrl(c: char) -> bool {
    let u = c as u32;
    u <= 0x1f || (0x7f <= u <= 0x9f)
}

pub open spec fn is_ascii_digit(c: char) -> bool {
    '0' <= c <= '9'
}

pub open spec fn is_ascii_upper(c: char) -> bool {
    'A' <= c <= 'Z'
}

pub open spec fn is_ascii_lower(c: char) -> bool {
    'a' <= c <= 'z'
}

pub open spec fn is_ascii_alpha(c: char) -> bool {
    is_ascii_upper(c) || is_ascii_lower(c)
}

/// `char::to_ascii_lowercase`.
pub open spec fn lower_char(c: char) -> char {
    if is_ascii_upper(c) {
        ((c as u32) + 32) as char
    } else {
        c
    }
}

/// `str::to_ascii_lowercase`.
pub open spec fn lower(s: Seq<char>) -> Seq<char> {
    s.map_values(|c: char| lower_char(c))
}

pub fn is_whitespace_char(c: char) -> (r: bool)
    ensures
        r == is_ws(c),
{
    let u = c as u32;
    (0x09 <= u && u <= 0x0d) || u == 0x20 || u == 0x85 || u == 0xa0 || u == 0x1680 || (0x2000
        <= u && u <= 0x200a) || u == 0x2028 || u == 0x2029 || u == 0x202f || u == 0x205f || u
        == 0x3000
}

pub fn is_control_char(c: char) -> (r: bool)
    ensures
        r == is_cntrl(c),
{
    let u = c as u32;
    u <= 0x1f || (0x7f <= u && u <= 0x9f)
}

pub fn lower_char_exec(c: char) -> (r: char)
    ensures
        r == lower_char(c),
{
    if 'A' <= c && c <= 'Z' {
        let b = (c as u8) + 32;
        proof {
            assert(b as u32 == (c as u32) + 32);
        }
        b as char
    } else {
        c
    }
}

// ---------------------------------------------------------------------------
// UTF-8 byte width
// ---------------------------------------------------------------------------

/// Bytes in the UTF-8 encoding of `c`.
pub open spec fn char_width(c: char) -> nat {
    let u = c as u32;
    if u < 0x80 {
        1
    } else if u < 0x800 {
        2
    } else if u < 0x10000 {
        3
    } else {
        4
    }
}

/// Bytes in the UTF-8 encoding of `s` (what `str::len` reports).
pub open spec fn utf8_width(s: Seq<char>) -> nat
    decreases s.len(),
{
    if s.len() == 0 {
        0
    } else {
        utf8_width(s.drop_last()) + char_width(s.last())
    }
}

pub fn char_width_exec(c: char) -> (r: usize)
    ensures
        r == char_width(c),
        1 <= r <= 4,
{
    let u = c as u32;
    if u < 0x80 {
        1
    } else if u < 0x800 {
        2
    } else if u < 0x10000 {
        3
    } else {
        4
    }
}

pub proof fn lemma_utf8_width_push(s: Seq<char>, c: char)
    ensures
        utf8_width(s.push(c)) == utf8_width(s) + char_width(c),
{
    assert(s.push(c).drop_last() =~= s);
}

pub proof fn lemma_utf8_width_mono(s: Seq<char>, n: int)
    requires
        0 <= n <= s.len(),
    ensures
        utf8_width(s.take(n)) <= utf8_width(s),
        utf8_width(s) <= 4 * s.len(),
        utf8_width(s) >= s.len(),
    decreases s.len(),
{
    if s.len() > 0 {
        if n < s.len() {
            assert(s.drop_last().take(n) =~= s.take(n));
            lemma_utf8_width_mono(s.drop_last(), n);
        } else {
            assert(s.take(n) =~= s);
            lemma_utf8_width_mono(s.drop_last(), 0);
        }
    }
}

/// UTF-8 byte length of a character sequence, saturating at `usize::MAX`.
pub fn utf8_width_exec(v: &Vec<char>) -> (r: usize)
    ensures
        r == if utf8_width(v@) <= usize::MAX { utf8_width(v@) } else { usize::MAX as nat },
{
    let mut total: usize = 0;
    let mut i: usize = 0;
    while i < v.len()
        invariant
            i <= v.len(),
            total == if utf8_width(v@.take(i as int)) <= usize::MAX {
                utf8_width(v@.take(i as int))
            } else {
                usize::MAX as nat
            },
        decreases v.len() - i,
    {
        let w = char_width_exec(v[i]);
        proof {
            assert(v@.take(i + 1) =~= v@.take(i as int).push(v@[i as int]));
            lemma_utf8_width_push(v@.take(i as int), v@[i as int]);
        }
        if total > usize::MAX - w {
            total = usize::MAX;
        } else {
            total = total + w;
        }
        i += 1;
    }
    assert(v@.take(v.len() as int) =~= v@);
    total
}

// ---------------------------------------------------------------------------
// Trimming
// ---------------------------------------------------------------------------

/// `str::trim_start`.
pub open spec fn trim_start(s: Seq<char>) -> Seq<char>
    decreases s.len(),
{
    if s.len() > 0 && is_ws(s[0]) {
        trim_start(s.drop_first())
    } else {
        s
    }
}

/// `str::trim_end`.
pub open spec fn trim_end(s: Seq<char>) -> Seq<char>
    decreases s.len(),
{
    if s.len() > 0 && is_ws(s.last()) {
        trim_end(s.drop_last())
    } else {
        s
    }
}

/// `str::trim`.
pub open spec fn trim(s: Seq<char>) -> Seq<char> {
    trim_end(trim_start(s))
}

/// `trim_start` drops a prefix, and what it keeps starts with a
/// non-whitespace character.
pub proof fn lemma_trim_start_shape(s: Seq<char>) -> (k: int)
    ensures
        0 <= k <= s.len(),
        trim_start(s) == s.skip(k),
        k < s.len() ==> !is_ws(s[k]),
    decreases s.len(),
{
    if s.len() > 0 && is_ws(s[0]) {
        let k1 = lemma_trim_start_shape(s.drop_first());
        assert(s.drop_first().skip(k1) =~= s.skip(k1 + 1));
        assert(k1 < s.drop_first().len() ==> s.drop_first()[k1] == s[k1 + 1]);
        k1 + 1
    } else {
        assert(s.skip(0) =~= s);
        0
    }
}

/// `trim_end` keeps a prefix, which ends with a non-whitespace character.
pub proof fn lemma_trim_end_shape(s: Seq<char>) -> (k: int)
    ensures
        0 <= k <= s.len(),
        trim_end(s) == s.take(k),
        k > 0 ==> !is_ws(s[k - 1]),
    decreases s.len(),
{
    if s.len() > 0 && is_ws(s.last()) {
        let k1 = lemma_trim_end_shape(s.drop_last());
        assert(s.drop_last().take(k1) =~= s.take(k1));
        k1
    } else {
        assert(s.take(s.len() as int) =~= s);
        s.len() as int
    }
}

/// Everything `trim_end` drops is whitespace.
pub proof fn lemma_trim_end_tail(s: Seq<char>) -> (k: int)
    ensures
        0 <= k <= s.len(),
        trim_end(s) == s.take(k),
        k > 0 ==> !is_ws(s[k - 1]),
        forall|j: int| k <= j < s.len() ==> is_ws(#[trigger] s[j]),
    decreases s.len(),
{
    if s.len() > 0 && is_ws(s.last()) {
        let s1 = s.drop_last();
        let k1 = lemma_trim_end_tail(s1);
        assert(s1.take(k1) =~= s.take(k1));
        assert forall|j: int| k1 <= j < s.len() implies is_ws(#[trigger] s[j]) by {
            if j < s1.len() {
                assert(s1[j] == s[j]);
            } else {
                assert(s[j] == s.last());
            }
        }
        k1
    } else {
        assert(s.take(s.len() as int) =~= s);
        s.len() as int
    }
}

/// A text whose character `k` is not whitespace and whose characters after
/// `k` all are keeps, after `trim_end`, exactly its characters up to `k`.
pub proof fn lemma_trim_end_at(s: Seq<char>, k: int)
    requires
        0 <= k < s.len(),
        !is_ws(s[k]),
        forall|j: int| k < j < s.len() ==> is_ws(#[trigger] s[j]),
    ensures
        trim_end(s) == s.take(k + 1),
    decreases s.len(),
{
    if s.len() == k + 1 {
        assert(s.last() == s[k]);
        assert(s.take(k + 1) =~= s);
    } else {
        assert(is_ws(s.last())) by {
            assert(s.last() == s[s.len() - 1]);
        }
        let s1 = s.drop_last();
        assert forall|j: int| k < j < s1.len() implies is_ws(#[trigger] s1[j]) by {
            assert(s1[j] == s[j]);
        }
        assert(s1[k] == s[k]);
        lemma_trim_end_at(s1, k);
        assert(s1.take(k + 1) =~= s.take(k + 1));
    }
}

/// `trim` keeps a contiguous part of the text.
pub proof fn lemma_trim_subrange(s: Seq<char>) -> (r: (int, int))
    ensures
        0 <= r.0 <= r.1 <= s.len(),
        trim(s) == s.subrange(r.0, r.1),
{
    let a = lemma_trim_start_shape(s);
    let b = lemma_trim_end_shape(s.skip(a));
    assert(s.skip(a).take(b) =~= s.subrange(a, a + b));
    (a, a + b)
}

/// Trimming twice is trimming once.
pub proof fn lemma_trim_idempotent(s: Seq<char>)
    ensures
        trim(trim(s)) == trim(s),
{
    let a = lemma_trim_start_shape(s);
    let u = trim_start(s);
    let b = lemma_trim_end_shape(u);
    let t = trim(s);
    assert(t == u.take(b));
    if t.len() > 0 {
        assert(t[0] == u[0]);
        assert(u[0] == s[a]);
        assert(trim_start(t) == t);
        assert(t.last() == u[b - 1]);
        assert(trim_end(t) == t);
    } else {
        assert(trim_start(t) == t);
        assert(trim_end(t) == t);
    }
}

/// Index of the first non-whitespace character (or the length).
pub fn trim_start_index(v: &Vec<char>, from: usize) -> (i: usize)
    requires
        from <= v.len(),
    ensures
        from <= i <= v.len(),
        v@.subrange(i as int, v.len() as int) == trim_start(v@.subrange(from as int, v.len() as int)),
{
    let mut i = from;
    while i < v.len() && is_whitespace_char(v[i])
        invariant
            from <= i <= v.len(),
            trim_start(v@.subrange(i as int, v.len() as int)) == trim_start(
                v@.subrange(from as int, v.len() as int),
            ),
        decreases v.len() - i,
    {
        assert(v@.subrange(i as int, v.len() as int).drop_first() =~= v@.subrange(
            i + 1,
            v.len() as int,
        ));
        i += 1;
    }
    i
}

/// End index after dropping trailing whitespace from `v[from..to]`.
pub fn trim_end_index(v: &Vec<char>, from: usize, to: usize) -> (j: usize)
    requires
        from <= to <= v.len(),
    ensures
        from <= j <= to,
        v@.subrange(from as int, j as int) == trim_end(v@.subrange(from as int, to as int)),
{
    let mut j = to;
    while j > from && is_whitespace_char(v[j - 1])
        invariant
            from <= j <= to,
            to <= v.len(),
            trim_end(v@.subrange(from as int, j as int)) == trim_end(
                v@.subrange(from as int, to as int),
            ),
        decreases j,
    {
        assert(v@.subrange(from as int, j as int).drop_last() =~= v@.subrange(
            from as int,
            j - 1,
        ));
        j -= 1;
    }
    j
}

/// Bounds `(a, b)` such that `v[a..b]` is `v` trimmed on both sides.
pub fn trim_bounds(v: &Vec<char>) -> (r: (usize, usize))
    ensures
        r.0 <= r.1 <= v.len(),
        v@.subrange(r.0 as int, r.1 as int) == trim(v@),
{
    let a = trim_start_index(v, 0);
    assert(v@.subrange(0, v.len() as int) =~= v@);
    let b = trim_end_index(v, a, v.len());
    (a, b)
}

// ---------------------------------------------------------------------------
// Sub-sequences, prefixes, substrings
// ---------------------------------------------------------------------------

/// `v[a..b]` as a new vector.
pub fn slice_of(v: &Vec<char>, a: usize, b: usize) -> (r: Vec<char>)
    requires
        a <= b <= v.len(),
    ensures
        r@ == v@.subrange(a as int, b as int),
{
    let mut r: Vec<char> = Vec::new();
    let mut i = a;
    while i < b
        invariant
            a <= i <= b,
            b <= v.len(),
            r@ == v@.subrange(a as int, i as int),
        decreases b - i,
    {
        r.push(v[i]);
        assert(v@.subrange(a as int, i + 1) =~= v@.subrange(a as int, i as int).push(v@[i as int]));
        i += 1;
    }
    r
}

/// Does `p` occur in `s` starting at index `i`?
pub open spec fn occurs_at(s: Seq<char>, p: Seq<char>, i: int) -> bool {
    0 <= i && i + p.len() <= s.len() && s.subrange(i, i + p.len()) == p
}

/// `str::contains` for a string pattern.
pub open spec fn contains_seq(s: Seq<char>, p: Seq<char>) -> bool {
    exists|i: int| occurs_at(s, p, i)
}

/// Does `p` occur in `v` at index `i`?
/// The part of `s` before the first occurrence of `sep`, or all of `s`.
#[verifier::opaque]
pub open spec fn before_first(s: Seq<char>, sep: Seq<char>) -> Seq<char> {
    if exists|i: int| 0 <= i && occurs_at(s, sep, i) {
        let i = choose|i: int|
            0 <= i && occurs_at(s, sep, i) && forall|j: int| 0 <= j < i ==> !occurs_at(s, sep, j);
        s.subrange(0, i)
    } else {
        s
    }
}

pub fn matches_at(v: &Vec<char>, p: &Vec<char>, i: usize) -> (r: bool)
    ensures
        r == occurs_at(v@, p@, i as int),
{
    if i > v.len() || p.len() > v.len() - i {
        return false;
    }
    let mut k: usize = 0;
    while k < p.len()
        invariant
            k <= p.len(),
            i + p.len() <= v.len(),
            forall|m: int| 0 <= m < k ==> v@[i + m] == p@[m],
        decreases p.len() - k,
    {
        if v[i + k] != p[k] {
            assert(v@.subrange(i as int, i + p.len())[k as int] != p@[k as int]);
            return false;
        }
        k += 1;
    }
    assert(v@.subrange(i as int, i + p.len()) =~= p@);
    true
}

/// `p` is a prefix of `v`.
pub fn starts_with(v: &Vec<char>, p: &Vec<char>) -> (r: bool)
    ensures
        r == p@.is_prefix_of(v@),
{
    let r = matches_at(v, p, 0);
    proof {
        if p@.len() <= v@.len() {
            if r {
                assert(v@.subrange(0, p@.len() as int) == p@);
            } else {
                assert(!(v@.subrange(0, p@.len() as int) =~= p@));
            }
        }
    }
    r
}

/// `p` is a suffix of `v`.
pub fn ends_with(v: &Vec<char>, p: &Vec<char>) -> (r: bool)
    ensures
        r == p@.is_suffix_of(v@),
{
    if p.len() > v.len() {
        return false;
    }
    let r = matches_at(v, p, v.len() - p.len());
    proof {
        if r {
            assert(v@.subrange(v@.len() - p@.len(), v@.len() as int) == p@);
        } else {
            assert(!(p@ =~= v@.subrange(v@.len() - p@.len(), v@.len() as int)));
        }
    }
    r
}

/// The first index at or after `from` where `p` occurs in `v`.
pub fn find_from(v: &Vec<char>, p: &Vec<char>, from: usize) -> (r: Option<usize>)
    ensures
        match r {
            Some(i) => from <= i && occurs_at(v@, p@, i as int) && forall|j: int|
                from <= j < i ==> !occurs_at(v@, p@, j),
            None => forall|j: int| from <= j ==> !occurs_at(v@, p@, j),
        },
{
    if p.len() > v.len() {
        return None;
    }
    let last = v.len() - p.len();
    let mut i = from;
    while i <= last
        invariant
            from <= i,
            last == v.len() - p.len(),
            p.len() <= v.len(),
            forall|j: int| from <= j < i ==> !occurs_at(v@, p@, j),
        decreases last + 1 - i,
    {
        if matches_at(v, p, i) {
            return Some(i);
        }
        if i == last {
            return None;
        }
        i += 1;
    }
    None
}

/// `str::contains`.
pub fn contains(v: &Vec<char>, p: &Vec<char>) -> (r: bool)
    ensures
        r == contains_seq(v@, p@),
{
    match find_from(v, p, 0) {
        Some(_) => true,
        None => {
            assert forall|j: int| !occurs_at(v@, p@, j) by {
                if j < 0 {
                }
            }
            false
        },
    }
}

/// End of the part of `v` before the first occurrence of `sep` (all of `v`
/// when `sep` does not occur).
pub fn before_first_end(v: &Vec<char>, sep: &Vec<char>) -> (end: usize)
    ensures
        end <= v@.len(),
        v@.subrange(0, end as int) == before_first(v@, sep@),
{
    reveal(before_first);
    match find_from(v, sep, 0) {
        Some(i) => {
            proof {
                let w = choose|j: int|
                    0 <= j && occurs_at(v@, sep@, j) && forall|k: int|
                        0 <= k < j ==> !occurs_at(v@, sep@, k);
                if w < i {
                } else if w > i {
                }
                assert(w == i);
            }
            i
        },
        None => {
            assert(v@.subrange(0, v@.len() as int) =~= v@);
            v.len()
        },
    }
}

/// `c` occurs in `v`.
pub fn has_char(v: &Vec<char>, c: char) -> (r: bool)
    ensures
        r == v@.contains(c),
{
    let mut i: usize = 0;
    while i < v.len()
        invariant
            i <= v.len(),
            forall|k: int| 0 <= k < i ==> v@[k] != c,
        decreases v.len() - i,
    {
        if v[i] == c {
            return true;
        }
        i += 1;
    }
    false
}

/// Character-vector equality.
pub fn seq_eq(a: &Vec<char>, b: &Vec<char>) -> (r: bool)
    ensures
        r == (a@ == b@),
{
    if a.len() != b.len() {
        return false;
    }
    let r = matches_at(a, b, 0);
    proof {
        if r {
            assert(a@.subrange(0, b@.len() as int) =~= a@);
        } else {
            assert(!(a@ =~= b@)) by {
                if a@ =~= b@ {
                    assert(a@.subrange(0, b@.len() as int) =~= b@);
                }
            }
        }
    }
    r
}

/// `str == str`.
pub fn str_eq(a: &str, b: &str) -> (r: bool)
    ensures
        r == (a@ == b@),
{
    let va = chars_of(a);
    let vb = chars_of(b);
    seq_eq(&va, &vb)
}

/// `str::to_ascii_lowercase`, on characters.
pub fn lower_vec(v: &Vec<char>) -> (r: Vec<char>)
    ensures
        r@ == lower(v@),
{
    let mut r: Vec<char> = Vec::new();
    let mut i: usize = 0;
    while i < v.len()
        invariant
            i <= v.len(),
            r@ == lower(v@.take(i as int)),
        decreases v.len() - i,
    {
        r.push(lower_char_exec(v[i]));
        assert(lower(v@.take(i + 1)) =~= lower(v@.take(i as int)).push(lower_char(v@[i as int])));
        i += 1;
    }
    assert(v@.take(v.len() as int) =~= v@);
    r
}


// ---------------------------------------------------------------------------
// Decimal numbers
// ---------------------------------------------------------------------------

pub open spec fn digit_char(d: nat) -> char {
    ((d % 10) + 48) as char
}

/// The decimal representation of `n` (no sign, no leading zeros; `0` is `"0"`).
pub open spec fn decimal(n: nat) -> Seq<char>
    decreases n,
{
    if n < 10 {
        seq![digit_char(n)]
    } else {
        decimal(n / 10).push(digit_char(n % 10))
    }
}

/// Renders `n` in decimal (what `format!("{n}")` prints for an unsigned integer).
pub fn decimal_string(n: u64) -> (r: String)
    ensures
        r@ == decimal(n as nat),
    decreases n,
{
    if n < 10 {
        let mut s = String::new();
        let c = ((n as u8) + 48) as char;
        proof {
            assert(c == digit_char(n as nat));
        }
        push_char(&mut s, c);
        assert(s@ =~= seq![digit_char(n as nat)]);
        s
    } else {
        let mut s = decimal_string(n / 10);
        let d = n % 10;
        let c = ((d as u8) + 48) as char;
        proof {
            assert(c == digit_char((n % 10) as nat));
        }
        push_char(&mut s, c);
        s
    }
}

/// The value of a run of decimal digits.
pub open spec fn digits_value(s: Seq<char>) -> nat
    decreases s.len(),
{
    if s.len() == 0 {
        0
    } else {
        digits_value(s.drop_last()) * 10 + ((s.last() as u32) - 48) as nat
    }
}

pub open spec fn all_digits(s: Seq<char>) -> bool {
    forall|i: int| 0 <= i < s.len() ==> is_ascii_digit(#[trigger] s[i])
}

/// `u32::from_str`: an optional `+`, then one or more ASCII digits whose value
/// fits in a `u32`.
pub open spec fn parse_u32_spec(s: Seq<char>) -> Option<u32> {
    let d = if s.len() > 0 && s[0] == '+' {
        s.drop_first()
    } else {
        s
    };
    if d.len() > 0 && all_digits(d) && digits_value(d) <= u32::MAX {
        Some(digits_value(d) as u32)
    } else {
        None
    }
}

/// Parses `v[a..b]` as a `u32` the way `str::parse::<u32>` does.
pub fn parse_u32(v: &Vec<char>, a: usize, b: usize) -> (r: Option<u32>)
    requires
        a <= b <= v.len(),
    ensures
        r == parse_u32_spec(v@.subrange(a as int, b as int)),
{
    let ghost s = v@.subrange(a as int, b as int);
    let mut start = a;
    if a < b && v[a] == '+' {
        start = a + 1;
    }
    let ghost d = v@.subrange(start as int, b as int);
    assert(d =~= if s.len() > 0 && s[0] == '+' {
        s.drop_first()
    } else {
        s
    });
    assert(parse_u32_spec(s) == (if d.len() > 0 && all_digits(d) && digits_value(d) <= u32::MAX {
        Some(digits_value(d) as u32)
    } else {
        None
    }));
    if start == b {
        return None;
    }
    let mut value: u64 = 0;
    let mut i = start;
    while i < b
        invariant
            start <= i <= b,
            b <= v.len(),
            d == v@.subrange(start as int, b as int),
            s == v@.subrange(a as int, b as int),
            d.len() > 0,
            parse_u32_spec(s) == (if d.len() > 0 && all_digits(d) && digits_value(d) <= u32::MAX {
                Some(digits_value(d) as u32)
            } else {
                None
            }),
            all_digits(v@.subrange(start as int, i as int)),
            value == digits_value(v@.subrange(start as int, i as int)),
            value <= u32::MAX,
        decreases b - i,
    {
        let c = v[i];
        if !('0' <= c && c <= '9') {
            assert(d[i - start] == c);
            assert(!is_ascii_digit(d[i - start]));
            assert(!all_digits(d));
            return None;
        }
        let dv = (c as u32) - 48;
        let ghost prev = v@.subrange(start as int, i as int);
        assert(v@.subrange(start as int, i + 1).drop_last() =~= prev);
        let next = value * 10 + dv as u64;
        if next > u32::MAX as u64 {
            // the value only grows from here on
            proof {
                if all_digits(d) {
                    lemma_digits_value_prefix(d, (i + 1 - start) as int);
                    assert(d.take((i + 1 - start) as int) =~= v@.subrange(start as int, i + 1));
                }
            }
            return None;
        }
        value = next;
        i += 1;
        assert(all_digits(v@.subrange(start as int, i as int))) by {
            assert forall|k: int| 0 <= k < i - start implies is_ascii_digit(
                #[trigger] v@.subrange(start as int, i as int)[k],
            ) by {
                if k < i - 1 - start {
                    assert(v@.subrange(start as int, i as int)[k] == prev[k]);
                }
            }
        }
    }
    assert(v@.subrange(start as int, b as int) =~= d);
    Some(value as u32)
}

/// `str::parse` for an unsigned integer type whose largest value is `max`: an
/// optional `+`, then one or more ASCII digits whose value is at most `max`.
pub open spec fn parse_uint_spec(s: Seq<char>, max: nat) -> Option<nat> {
    let d = if s.len() > 0 && s[0] == '+' {
        s.drop_first()
    } else {
        s
    };
    if d.len() > 0 && all_digits(d) && digits_value(d) <= max {
        Some(digits_value(d))
    } else {
        None
    }
}

/// Parses `v[a..b]` as an unsigned integer no larger than `max`.
pub fn parse_uint(v: &Vec<char>, a: usize, b: usize, max: u64) -> (r: Option<u64>)
    requires
        a <= b <= v.len(),
    ensures
        match parse_uint_spec(v@.subrange(a as int, b as int), max as nat) {
            Some(n) => r == Some(n as u64),
            None => r.is_none(),
        },
{
    let ghost s = v@.subrange(a as int, b as int);
    let mut start = a;
    if a < b && v[a] == '+' {
        start = a + 1;
    }
    let ghost d = v@.subrange(start as int, b as int);
    assert(d =~= if s.len() > 0 && s[0] == '+' {
        s.drop_first()
    } else {
        s
    });
    if start == b {
        return None;
    }
    let mut value: u128 = 0;
    let mut i = start;
    while i < b
        invariant
            start <= i <= b,
            b <= v.len(),
            d == v@.subrange(start as int, b as int),
            s == v@.subrange(a as int, b as int),
            d.len() > 0,
            d =~= (if s.len() > 0 && s[0] == '+' {
                s.drop_first()
            } else {
                s
            }),
            all_digits(v@.subrange(start as int, i as int)),
            value == digits_value(v@.subrange(start as int, i as int)),
            value <= max,
        decreases b - i,
    {
        let c = v[i];
        if !('0' <= c && c <= '9') {
            assert(d[i - start] == c);
            assert(!is_ascii_digit(d[i - start]));
            assert(!all_digits(d));
            return None;
        }
        let dv = (c as u32) - 48;
        let ghost prev = v@.subrange(start as int, i as int);
        assert(v@.subrange(start as int, i + 1).drop_last() =~= prev);
        let next: u128 = value * 10 + dv as u128;
        if next > max as u128 {
            proof {
                if all_digits(d) {
                    lemma_digits_value_prefix(d, (i + 1 - start) as int);
                    assert(d.take((i + 1 - start) as int) =~= v@.subrange(start as int, i + 1));
                }
            }
            return None;
        }
        value = next;
        i += 1;
        assert(all_digits(v@.subrange(start as int, i as int))) by {
            assert forall|k: int| 0 <= k < i - start implies is_ascii_digit(
                #[trigger] v@.subrange(start as int, i as int)[k],
            ) by {
                if k < i - 1 - start {
                    assert(v@.subrange(start as int, i as int)[k] == prev[k]);
                }
            }
        }
    }
    assert(v@.subrange(start as int, b as int) =~= d);
    Some(value as u64)
}

/// A longer run of digits is worth at least as much as its prefix.
pub proof fn lemma_digits_value_prefix(d: Seq<char>, n: int)
    requires
        0 <= n <= d.len(),
        all_digits(d),
    ensures
        digits_value(d.take(n)) <= digits_value(d),
    decreases d.len(),
{
    if d.len() > 0 && n < d.len() {
        assert(d.drop_last().take(n) =~= d.take(n));
        assert(all_digits(d.drop_last())) by {
            assert forall|k: int| 0 <= k < d.drop_last().len() implies is_ascii_digit(
                #[trigger] d.drop_last()[k],
            ) by {
                assert(d[k] == d.drop_last()[k]);
            }
        }
        lemma_digits_value_prefix(d.drop_last(), n);
    } else if n == d.len() {
        assert(d.take(n) =~= d);
    }
}

// ---------------------------------------------------------------------------
// Splitting
// ---------------------------------------------------------------------------

/// `s` cut at every occurrence of `c` (an empty `s` is one empty piece).
pub open spec fn split_on(s: Seq<char>, c: char) -> Seq<Seq<char>>
    decreases s.len(),
{
    if s.len() == 0 {
        seq![Seq::<char>::empty()]
    } else {
        let rest = split_on(s.drop_last(), c);
        if s.last() == c {
            rest.push(Seq::<char>::empty())
        } else {
            rest.update(rest.len() - 1, rest.last().push(s.last()))
        }
    }
}

pub proof fn lemma_split_nonempty(s: Seq<char>, c: char)
    ensures
        split_on(s, c).len() >= 1,
    decreases s.len(),
{
    if s.len() > 0 {
        lemma_split_nonempty(s.drop_last(), c);
    }
}

/// A text without `c` is a single piece.
pub proof fn lemma_split_none(s: Seq<char>, c: char)
    requires
        !s.contains(c),
    ensures
        split_on(s, c) == seq![s],
    decreases s.len(),
{
    if s.len() > 0 {
        let s1 = s.drop_last();
        assert(!s1.contains(c)) by {
            if s1.contains(c) {
                let i = choose|i: int| 0 <= i < s1.len() && s1[i] == c;
                assert(s[i] == c);
            }
        }
        assert(s.last() != c) by {
            assert(s[s.len() - 1] == s.last());
        }
        lemma_split_none(s1, c);
        assert(s1.push(s.last()) =~= s);
        assert(seq![s1].update(0, s1.push(s.last())) =~= seq![s]);
    } else {
        assert(s =~= Seq::<char>::empty());
    }
}

/// Cutting at one occurrence of `c` cuts the pieces on either side apart.
pub proof fn lemma_split_concat(x: Seq<char>, y: Seq<char>, c: char)
    ensures
        split_on(x + seq![c] + y, c) == split_on(x, c) + split_on(y, c),
    decreases y.len(),
{
    lemma_split_nonempty(x, c);
    let s = x + seq![c] + y;
    if y.len() == 0 {
        assert(s.drop_last() =~= x);
        assert(s.last() == c);
        assert(split_on(x, c) + split_on(y, c) =~= split_on(x, c).push(Seq::<char>::empty()));
    } else {
        let y1 = y.drop_last();
        assert(s.drop_last() =~= x + seq![c] + y1);
        assert(s.last() == y.last());
        lemma_split_concat(x, y1, c);
        lemma_split_nonempty(y1, c);
        let a = split_on(x, c);
        let b = split_on(y1, c);
        let ab = a + b;
        if y.last() == c {
            assert(ab.push(Seq::<char>::empty()) =~= a + b.push(Seq::<char>::empty()));
        } else {
            assert(ab.update(ab.len() - 1, ab.last().push(y.last())) =~= a + b.update(
                b.len() - 1,
                b.last().push(y.last()),
            ));
        }
    }
}

/// Lines joined by `c`, none of which holds `c`, cut at `c` give the lines
/// back.
pub proof fn lemma_split_join(ls: Seq<Seq<char>>, c: char)
    requires
        ls.len() >= 1,
        forall|i: int| 0 <= i < ls.len() ==> !(#[trigger] ls[i]).contains(c),
    ensures
        split_on(join(ls, seq![c]), c) == ls,
    decreases ls.len(),
{
    if ls.len() == 1 {
        lemma_split_none(ls[0], c);
        assert(seq![ls[0]] =~= ls);
    } else {
        let l1 = ls.drop_last();
        assert forall|i: int| 0 <= i < l1.len() implies !(#[trigger] l1[i]).contains(c) by {
            assert(l1[i] == ls[i]);
        }
        lemma_split_join(l1, c);
        assert(!ls.last().contains(c)) by {
            assert(ls[ls.len() - 1] == ls.last());
        }
        lemma_split_none(ls.last(), c);
        lemma_split_concat(join(l1, seq![c]), ls.last(), c);
        assert(l1 + seq![ls.last()] =~= ls);
    }
}

/// `parts` joined with `sep` between consecutive parts.
pub open spec fn join(parts: Seq<Seq<char>>, sep: Seq<char>) -> Seq<char>
    decreases parts.len(),
{
    if parts.len() == 0 {
        seq![]
    } else if parts.len() == 1 {
        parts[0]
    } else {
        join(parts.drop_last(), sep) + sep + parts.last()
    }
}

/// The pieces of `v` between occurrences of `sep`.
pub fn split_pieces(v: &Vec<char>, sep: char) -> (parts: Vec<Vec<char>>)
    ensures
        parts@.map_values(|p: Vec<char>| p@) == split_on(v@, sep),
{
    let mut parts: Vec<Vec<char>> = Vec::new();
    let mut cur: Vec<char> = Vec::new();
    let mut i: usize = 0;
    while i < v.len()
        invariant
            0 <= i <= v@.len(),
            parts@.map_values(|p: Vec<char>| p@).push(cur@) == split_on(v@.take(i as int), sep),
        decreases v@.len() - i,
    {
        let ghost before = split_on(v@.take(i as int), sep);
        proof {
            lemma_split_nonempty(v@.take(i as int), sep);
            assert(v@.take(i + 1).drop_last() =~= v@.take(i as int));
        }
        if v[i] == sep {
            parts.push(cur);
            cur = Vec::new();
            assert(parts@.map_values(|p: Vec<char>| p@).push(cur@) =~= before.push(
                Seq::<char>::empty(),
            ));
        } else {
            cur.push(v[i]);
            assert(parts@.map_values(|p: Vec<char>| p@).push(cur@) =~= before.update(
                before.len() - 1,
                before.last().push(v@[i as int]),
            ));
        }
        i += 1;
    }
    assert(v@.take(i as int) =~= v@);
    parts.push(cur);
    parts
}

/// `s` cut at every occurrence of the string `d`, found left to right without
/// overlap (`str::split` with a string pattern); `cur` is the piece being built.
pub open spec fn split_by(s: Seq<char>, d: Seq<char>, cur: Seq<char>) -> Seq<Seq<char>>
    decreases s.len(),
{
    if s.len() == 0 {
        seq![cur]
    } else if d.len() > 0 && d.is_prefix_of(s) {
        seq![cur] + split_by(s.skip(d.len() as int), d, Seq::<char>::empty())
    } else {
        split_by(s.skip(1), d, cur.push(s[0]))
    }
}

/// The pieces of `s` between occurrences of `d`; an empty `d` occurs at every
/// character boundary, so each character becomes a piece between two empty ones.
pub open spec fn split_str(s: Seq<char>, d: Seq<char>) -> Seq<Seq<char>> {
    if d.len() == 0 {
        seq![Seq::<char>::empty()] + s.map_values(|c: char| seq![c]) + seq![Seq::<char>::empty()]
    } else {
        split_by(s, d, Seq::<char>::empty())
    }
}

/// `parts` joined with `d` between consecutive parts, built from the front.
pub open spec fn join_front(parts: Seq<Seq<char>>, d: Seq<char>) -> Seq<char>
    decreases parts.len(),
{
    if parts.len() == 0 {
        Seq::<char>::empty()
    } else if parts.len() == 1 {
        parts[0]
    } else {
        parts[0] + d + join_front(parts.skip(1), d)
    }
}

/// Joining the pieces of a split with the delimiter gives back the text.
pub proof fn lemma_split_by_join(s: Seq<char>, d: Seq<char>, cur: Seq<char>)
    ensures
        split_by(s, d, cur).len() >= 1,
        join_front(split_by(s, d, cur), d) == cur + s,
    decreases s.len(),
{
    if s.len() == 0 {
        assert(cur + s =~= cur);
    } else if d.len() > 0 && d.is_prefix_of(s) {
        let rest = s.skip(d.len() as int);
        lemma_split_by_join(rest, d, Seq::<char>::empty());
        let tail = split_by(rest, d, Seq::<char>::empty());
        let all = seq![cur] + tail;
        assert(all.skip(1) =~= tail);
        assert(all[0] == cur);
        assert(Seq::<char>::empty() + rest =~= rest);
        assert(s =~= d + rest);
        assert(cur + d + rest =~= cur + s);
    } else {
        lemma_split_by_join(s.skip(1), d, cur.push(s[0]));
        assert(cur.push(s[0]) + s.skip(1) =~= cur + s);
    }
}

proof fn lemma_singles_join(s: Seq<char>)
    ensures
        join_front(s.map_values(|c: char| seq![c]) + seq![Seq::<char>::empty()], Seq::<char>::empty())
            == s,
    decreases s.len(),
{
    let e = Seq::<char>::empty();
    let all = s.map_values(|c: char| seq![c]) + seq![e];
    if s.len() == 0 {
        assert(all =~= seq![e]);
    } else {
        let rest = s.skip(1);
        lemma_singles_join(rest);
        assert(all.skip(1) =~= rest.map_values(|c: char| seq![c]) + seq![e]);
        assert(all[0] == seq![s[0]]);
        assert(seq![s[0]] + e + rest =~= s);
    }
}

/// Joining the pieces of `split_str(s, d)` with `d` gives back `s`.
pub proof fn lemma_split_str_join(s: Seq<char>, d: Seq<char>)
    ensures
        split_str(s, d).len() >= 1,
        join_front(split_str(s, d), d) == s,
{
    if d.len() == 0 {
        let e = Seq::<char>::empty();
        let tail = s.map_values(|c: char| seq![c]) + seq![e];
        lemma_singles_join(s);
        let all = seq![e] + tail;
        assert(split_str(s, d) =~= all);
        assert(all.skip(1) =~= tail);
        assert(e + d + s =~= s);
    } else {
        lemma_split_by_join(s, d, Seq::<char>::empty());
        assert(Seq::<char>::empty() + s =~= s);
    }
}

/// `s` with every occurrence of `f`, found left to right without overlap,
/// replaced by `r` (`str::replace`).
pub open spec fn replace_all_spec(s: Seq<char>, f: Seq<char>, r: Seq<char>) -> Seq<char>
    decreases s.len(),
{
    if s.len() == 0 {
        s
    } else if f.len() > 0 && f.is_prefix_of(s) {
        r + replace_all_spec(s.skip(f.len() as int), f, r)
    } else {
        seq![s[0]] + replace_all_spec(s.skip(1), f, r)
    }
}

/// Appends the characters of `r` to `out`.
pub fn extend_chars(out: &mut Vec<char>, r: &Vec<char>)
    ensures
        final(out)@ == old(out)@ + r@,
{
    let mut k: usize = 0;
    while k < r.len()
        invariant
            k <= r.len(),
            out@ == old(out)@ + r@.take(k as int),
        decreases r.len() - k,
    {
        out.push(r[k]);
        assert(old(out)@ + r@.take(k + 1) =~= (old(out)@ + r@.take(k as int)).push(r@[k as int]));
        k += 1;
    }
    assert(r@.take(r.len() as int) =~= r@);
}

/// `v` with every occurrence of `f` replaced by `r`.
pub fn replace_all(v: &Vec<char>, f: &Vec<char>, r: &Vec<char>) -> (out: Vec<char>)
    requires
        f@.len() > 0,
    ensures
        out@ == replace_all_spec(v@, f@, r@),
{
    let mut out: Vec<char> = Vec::new();
    let mut i: usize = 0;
    assert(v@.skip(0) =~= v@);
    while i < v.len()
        invariant
            0 <= i <= v@.len(),
            f@.len() > 0,
            out@ + replace_all_spec(v@.skip(i as int), f@, r@) == replace_all_spec(v@, f@, r@),
        decreases v@.len() - i,
    {
        let ghost rest = v@.skip(i as int);
        let ghost before = out@;
        if matches_at(v, f, i) {
            proof {
                assert(rest.take(f@.len() as int) =~= v@.subrange(i as int, i + f@.len()));
                assert(f@.is_prefix_of(rest));
                assert(rest.skip(f@.len() as int) =~= v@.skip(i + f@.len()));
            }
            extend_chars(&mut out, r);
            proof {
                assert(before + (r@ + replace_all_spec(v@.skip(i + f@.len()), f@, r@)) =~= (before
                    + r@) + replace_all_spec(v@.skip(i + f@.len()), f@, r@));
            }
            i += f.len();
        } else {
            proof {
                if f@.is_prefix_of(rest) {
                    assert(v@.subrange(i as int, i + f@.len()) =~= rest.take(f@.len() as int));
                }
                assert(rest.skip(1) =~= v@.skip(i + 1));
                assert(rest[0] == v@[i as int]);
            }
            out.push(v[i]);
            proof {
                assert(before + (seq![v@[i as int]] + replace_all_spec(v@.skip(i + 1), f@, r@))
                    =~= before.push(v@[i as int]) + replace_all_spec(v@.skip(i + 1), f@, r@));
            }
            i += 1;
        }
    }
    proof {
        assert(v@.skip(i as int).len() == 0);
        assert(out@ + v@.skip(i as int) =~= out@);
    }
    out
}

/// Each character of `v` as a piece, between two empty pieces (a split on the
/// empty string).
fn split_chars(v: &Vec<char>) -> (parts: Vec<Vec<char>>)
    ensures
        parts@.map_values(|p: Vec<char>| p@) == split_str(v@, Seq::<char>::empty()),
{
    let mut parts: Vec<Vec<char>> = Vec::new();
    parts.push(Vec::new());
    let mut i: usize = 0;
    while i < v.len()
        invariant
            0 <= i <= v@.len(),
            parts@.map_values(|p: Vec<char>| p@) == seq![Seq::<char>::empty()] + v@.take(
                i as int,
            ).map_values(|c: char| seq![c]),
        decreases v@.len() - i,
    {
        let ghost before = parts@.map_values(|p: Vec<char>| p@);
        let mut one: Vec<char> = Vec::new();
        one.push(v[i]);
        parts.push(one);
        proof {
            assert(parts@.map_values(|p: Vec<char>| p@) =~= before.push(seq![v@[i as int]]));
            assert(v@.take(i + 1).map_values(|c: char| seq![c]) =~= v@.take(i as int).map_values(
                |c: char| seq![c],
            ).push(seq![v@[i as int]]));
        }
        i += 1;
    }
    let ghost before = parts@.map_values(|p: Vec<char>| p@);
    parts.push(Vec::new());
    proof {
        assert(v@.take(i as int) =~= v@);
        assert(parts@.map_values(|p: Vec<char>| p@) =~= before.push(Seq::<char>::empty()));
        assert(split_str(v@, Seq::<char>::empty()) =~= before + seq![Seq::<char>::empty()]);
    }
    parts
}

/// The pieces of `v` between occurrences of `d`.
pub fn split_str_pieces(v: &Vec<char>, d: &Vec<char>) -> (parts: Vec<Vec<char>>)
    ensures
        parts@.map_values(|p: Vec<char>| p@) == split_str(v@, d@),
{
    if d.len() == 0 {
        return split_chars(v);
    }
    let mut parts: Vec<Vec<char>> = Vec::new();
    let mut cur: Vec<char> = Vec::new();
    let mut i: usize = 0;
    assert(v@.skip(0) =~= v@);
    assert(parts@.map_values(|p: Vec<char>| p@) + split_by(v@, d@, cur@) =~= split_str(v@, d@));
    while i < v.len()
        invariant
            0 <= i <= v@.len(),
            d@.len() > 0,
            parts@.map_values(|p: Vec<char>| p@) + split_by(v@.skip(i as int), d@, cur@) == split_str(
                v@,
                d@,
            ),
        decreases v@.len() - i,
    {
        let ghost rest = v@.skip(i as int);
        let ghost pv = parts@.map_values(|p: Vec<char>| p@);
        if matches_at(v, d, i) {
            proof {
                assert(rest.take(d@.len() as int) =~= v@.subrange(i as int, i + d@.len()));
                assert(d@.is_prefix_of(rest));
                assert(rest.skip(d@.len() as int) =~= v@.skip(i + d@.len()));
            }
            let piece = cur;
            cur = Vec::new();
            let ghost pc = piece@;
            parts.push(piece);
            proof {
                assert(parts@.map_values(|p: Vec<char>| p@) =~= pv.push(pc));
                assert(pv + (seq![pc] + split_by(v@.skip(i + d@.len()), d@, cur@)) =~= pv.push(pc)
                    + split_by(v@.skip(i + d@.len()), d@, cur@));
            }
            i += d.len();
        } else {
            proof {
                if d@.is_prefix_of(rest) {
                    assert(v@.subrange(i as int, i + d@.len()) =~= rest.take(d@.len() as int));
                }
                assert(rest.skip(1) =~= v@.skip(i + 1));
                assert(rest[0] == v@[i as int]);
            }
            cur.push(v[i]);
            i += 1;
        }
    }
    let ghost pv = parts@.map_values(|p: Vec<char>| p@);
    let ghost pc = cur@;
    proof {
        assert(v@.skip(i as int).len() == 0);
    }
    parts.push(cur);
    proof {
        assert(parts@.map_values(|p: Vec<char>| p@) =~= pv.push(pc));
        assert(pv + seq![pc] =~= pv.push(pc));
    }
    parts
}

// ---------------------------------------------------------------------------
// Conversions between `str`/`String` and character vectors
// ---------------------------------------------------------------------------

/// The characters of `s`, in order.
pub fn chars_of(s: &str) -> (v: Vec<char>)
    ensures
        v@ == s@,
{
    let mut v: Vec<char> = Vec::new();
    for c in it: s.chars()
        invariant
            v@ == it.history(),
            it.seq() == s@,
    {
        v.push(c);
    }
    v
}

/// Appends one character to `s` (std `String::push`).
#[verifier::external_body]
pub(crate) fn push_char(s: &mut String, c: char)
    ensures
        final(s)@ == old(s)@.push(c),
{
    s.push(c);
}

/// How `{:?}` renders a string: in double quotes, with Rust's escapes.
pub uninterp spec fn debug_quoted(s: Seq<char>) -> Seq<char>;

/// The `Debug` rendering of `s` (std's `<str as Debug>::fmt`).
#[verifier::external_body]
pub(crate) fn debug_str(s: &str) -> (r: String)
    ensures
        r@ == debug_quoted(s@),
{
    format!("{:?}", s)
}

/// Appends the characters of `v` to `s`.
pub fn push_chars(s: &mut String, v: &Vec<char>)
    ensures
        final(s)@ == old(s)@ + v@,
{
    let mut i: usize = 0;
    while i < v.len()
        invariant
            i <= v.len(),
            s@ == old(s)@ + v@.take(i as int),
        decreases v.len() - i,
    {
        push_char(s, v[i]);
        assert(old(s)@ + v@.take(i + 1) =~= (old(s)@ + v@.take(i as int)).push(v@[i as int]));
        i += 1;
    }
    assert(v@.take(v.len() as int) =~= v@);
}

/// The string holding exactly the characters of `v`.
pub fn string_of(v: &Vec<char>) -> (s: String)
    ensures
        s@ == v@,
{
    let mut s = String::new();
    push_chars(&mut s, v);
    s
}

/// Appends `t` to `s` (vstd's `String::append`).
pub fn push_str(s: &mut String, t: &str)
    ensures
        final(s)@ == old(s)@ + t@,
{
    s.append(t);
}

} // verus!
