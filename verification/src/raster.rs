//! Pixel-level pieces of the frame rasterizer: the terminal palettes, `#rrggbb`
//! colours, the procedurally drawn block-element and box-drawing cells, the
//! render plan, and the report of characters that needed a fallback font.

use vstd::prelude::*;
use crate::model::Score;
use crate::text::{chars_of, decimal, decimal_string, join, push_char, push_str, trim, trim_bounds};

verus! {

broadcast use vstd::string::group_string_axioms;

// ---------------------------------------------------------------------------
// Palettes
// ---------------------------------------------------------------------------

/// The standard xterm 16-colour ANSI palette.
pub open spec fn ansi16_spec(i: int) -> Seq<u8> {
    if i == 0 {
        seq![0u8, 0, 0]
    } else if i == 1 {
        seq![205u8, 0, 0]
    } else if i == 2 {
        seq![0u8, 205, 0]
    } else if i == 3 {
        seq![205u8, 205, 0]
    } else if i == 4 {
        seq![0u8, 0, 238]
    } else if i == 5 {
        seq![205u8, 0, 205]
    } else if i == 6 {
        seq![0u8, 205, 205]
    } else if i == 7 {
        seq![229u8, 229, 229]
    } else if i == 8 {
        seq![127u8, 127, 127]
    } else if i == 9 {
        seq![255u8, 0, 0]
    } else if i == 10 {
        seq![0u8, 255, 0]
    } else if i == 11 {
        seq![255u8, 255, 0]
    } else if i == 12 {
        seq![92u8, 92, 255]
    } else if i == 13 {
        seq![255u8, 0, 255]
    } else if i == 14 {
        seq![0u8, 255, 255]
    } else {
        seq![255u8, 255, 255]
    }
}

/// Colour `i` (below 16) of the xterm ANSI palette.
pub fn ansi16(i: u8) -> (c: [u8; 3])
    requires
        i < 16,
    ensures
        c@ == ansi16_spec(i as int),
{
    let c: [u8; 3] = match i {
        0 => [0, 0, 0],
        1 => [205, 0, 0],
        2 => [0, 205, 0],
        3 => [205, 205, 0],
        4 => [0, 0, 238],
        5 => [205, 0, 205],
        6 => [0, 205, 205],
        7 => [229, 229, 229],
        8 => [127, 127, 127],
        9 => [255, 0, 0],
        10 => [0, 255, 0],
        11 => [255, 255, 0],
        12 => [92, 92, 255],
        13 => [255, 0, 255],
        14 => [0, 255, 255],
        _ => [255, 255, 255],
    };
    assert(c@ =~= ansi16_spec(i as int));
    c
}

/// The xterm 16-colour palette, entry by entry: black, red, green, yellow,
/// blue, magenta, cyan, white, then their bright forms.
pub proof fn lemma_ansi16_is_xterm_palette()
    ensures
        ansi16_spec(0) == seq![0u8, 0, 0],
        ansi16_spec(1) == seq![205u8, 0, 0],
        ansi16_spec(2) == seq![0u8, 205, 0],
        ansi16_spec(3) == seq![205u8, 205, 0],
        ansi16_spec(4) == seq![0u8, 0, 238],
        ansi16_spec(5) == seq![205u8, 0, 205],
        ansi16_spec(6) == seq![0u8, 205, 205],
        ansi16_spec(7) == seq![229u8, 229, 229],
        ansi16_spec(8) == seq![127u8, 127, 127],
        ansi16_spec(9) == seq![255u8, 0, 0],
        ansi16_spec(10) == seq![0u8, 255, 0],
        ansi16_spec(11) == seq![255u8, 255, 0],
        ansi16_spec(12) == seq![92u8, 92, 255],
        ansi16_spec(13) == seq![255u8, 0, 255],
        ansi16_spec(14) == seq![0u8, 255, 255],
        ansi16_spec(15) == seq![255u8, 255, 255],
{
}

/// One axis level of the xterm 6×6×6 colour cube.
pub open spec fn cube_level(c: int) -> int {
    if c == 0 {
        0
    } else {
        55 + c * 40
    }
}

/// The xterm 256-colour palette: the ANSI 16, then the 6×6×6 colour cube
/// (indices 16..=231), then a 24-step grey ramp (232..=255).
pub open spec fn xterm256_spec(i: int) -> Seq<u8> {
    if i < 16 {
        ansi16_spec(i)
    } else if i >= 232 {
        let v = (8 + (i - 232) * 10) as u8;
        seq![v, v, v]
    } else {
        let j = i - 16;
        seq![cube_level(j / 36) as u8, cube_level((j % 36) / 6) as u8, cube_level(j % 6) as u8]
    }
}

fn cube_level_exec(c: u16) -> (r: u8)
    requires
        c < 6,
    ensures
        r == cube_level(c as int),
{
    if c == 0 {
        0
    } else {
        (55 + c * 40) as u8
    }
}

/// Colour `i` of the xterm 256-colour palette.
pub fn xterm256(i: u8) -> (c: [u8; 3])
    ensures
        c@ == xterm256_spec(i as int),
{
    if i < 16 {
        return ansi16(i);
    }
    if i >= 232 {
        let v: u8 = (8 + (i as u16 - 232) * 10) as u8;
        let c: [u8; 3] = [v, v, v];
        assert(c@ =~= xterm256_spec(i as int));
        return c;
    }
    let j: u16 = i as u16 - 16;
    let c: [u8; 3] = [cube_level_exec(j / 36), cube_level_exec((j % 36) / 6), cube_level_exec(j % 6)];
    assert(c@ =~= xterm256_spec(i as int));
    c
}

// ---------------------------------------------------------------------------
// `#rrggbb` colours
// ---------------------------------------------------------------------------

/// `s` without any leading `#` characters.
pub open spec fn drop_hashes(s: Seq<char>) -> Seq<char>
    decreases s.len(),
{
    if s.len() > 0 && s[0] == '#' {
        drop_hashes(s.drop_first())
    } else {
        s
    }
}

pub open spec fn is_hex_digit(c: char) -> bool {
    ('0' <= c <= '9') || ('a' <= c <= 'f') || ('A' <= c <= 'F')
}

pub open spec fn hex_digit_value(c: char) -> nat {
    if '0' <= c <= '9' {
        (c as nat - '0' as nat) as nat
    } else if 'a' <= c <= 'f' {
        (c as nat - 'a' as nat + 10) as nat
    } else {
        (c as nat - 'A' as nat + 10) as nat
    }
}

/// The value of a run of hexadecimal digits, most significant first.
pub open spec fn hex_value(s: Seq<char>) -> nat
    decreases s.len(),
{
    if s.len() == 0 {
        0
    } else {
        hex_value(s.drop_last()) * 16 + hex_digit_value(s.last())
    }
}

pub open spec fn all_hex(s: Seq<char>) -> bool {
    forall|i: int| 0 <= i < s.len() ==> is_hex_digit(#[trigger] s[i])
}

/// The six-character body of a colour read as a hexadecimal number: exactly
/// six hex digits.
pub open spec fn hex6_value(u: Seq<char>) -> Option<nat> {
    if u.len() == 6 && all_hex(u) {
        Some(hex_value(u))
    } else {
        None
    }
}

/// A `#rrggbb` colour: trimmed, any leading `#`s dropped, then six hex digits.
pub open spec fn parse_hex_spec(s: Seq<char>) -> Option<Seq<u8>> {
    match hex6_value(drop_hashes(trim(s))) {
        Some(n) => Some(seq![(n / 65536 % 256) as u8, (n / 256 % 256) as u8, (n % 256) as u8]),
        None => None,
    }
}

fn hex_digit(c: char) -> (r: Option<u32>)
    ensures
        r.is_some() == is_hex_digit(c),
        r.is_some() ==> r.unwrap() == hex_digit_value(c) && r.unwrap() < 16,
{
    if '0' <= c && c <= '9' {
        Some(c as u32 - '0' as u32)
    } else if 'a' <= c && c <= 'f' {
        Some(c as u32 - 'a' as u32 + 10)
    } else if 'A' <= c && c <= 'F' {
        Some(c as u32 - 'A' as u32 + 10)
    } else {
        None
    }
}

/// `16` to the power `k`.
pub open spec fn p16(k: nat) -> nat
    decreases k,
{
    if k == 0 {
        1
    } else {
        16 * p16((k - 1) as nat)
    }
}

proof fn lemma_p16_small(k: nat)
    requires
        k <= 6,
    ensures
        p16(k) <= 16777216,
{
    reveal_with_fuel(p16, 7);
}

proof fn lemma_hex_value_bound(s: Seq<char>)
    requires
        all_hex(s),
    ensures
        hex_value(s) < p16(s.len()),
    decreases s.len(),
{
    if s.len() > 0 {
        let t = s.drop_last();
        assert(all_hex(t)) by {
            assert forall|i: int| 0 <= i < t.len() implies is_hex_digit(#[trigger] t[i]) by {
                assert(t[i] == s[i]);
            }
        }
        lemma_hex_value_bound(t);
        assert(is_hex_digit(s[s.len() - 1]));
        let p = p16(t.len());
        assert(hex_value(t) * 16 + 16 <= p * 16) by (nonlinear_arith)
            requires
                hex_value(t) < p,
        ;
    }
}

/// Value of the hex digits `v[a..b]`, or `None` if any of them is not a hex digit.
fn hex_run(v: &Vec<char>, a: usize, b: usize) -> (r: Option<u32>)
    requires
        a <= b <= v.len(),
        b - a <= 6,
    ensures
        r.is_some() == all_hex(v@.subrange(a as int, b as int)),
        r.is_some() ==> r.unwrap() == hex_value(v@.subrange(a as int, b as int)),
{
    let mut n: u32 = 0;
    let mut i: usize = a;
    while i < b
        invariant
            a <= i <= b <= v.len(),
            b - a <= 6,
            all_hex(v@.subrange(a as int, i as int)),
            n == hex_value(v@.subrange(a as int, i as int)),
            n < p16((i - a) as nat),
        decreases b - i,
    {
        match hex_digit(v[i]) {
            Some(d) => {
                let ghost t = v@.subrange(a as int, i + 1);
                assert(t.drop_last() =~= v@.subrange(a as int, i as int));
                assert(all_hex(t)) by {
                    assert forall|k: int| 0 <= k < t.len() implies is_hex_digit(#[trigger] t[k]) by {
                        if k < t.len() - 1 {
                            assert(t[k] == v@.subrange(a as int, i as int)[k]);
                        }
                    }
                }
                proof {
                    lemma_hex_value_bound(t);
                    lemma_p16_small((i + 1 - a) as nat);
                }
                n = n * 16 + d;
                i += 1;
            },
            None => {
                proof {
                    let t = v@.subrange(a as int, b as int);
                    assert(t[i - a] == v@[i as int]);
                    assert(!is_hex_digit(t[i - a]));
                }
                return None;
            },
        }
    }
    Some(n)
}

/// Parse a `#rrggbb` colour (surrounding whitespace and leading `#`s are
/// ignored).
pub fn parse_hex(s: &str) -> (r: Option<[u8; 3]>)
    ensures
        match parse_hex_spec(s@) {
            Some(c) => r.is_some() && r.unwrap()@ == c,
            None => r.is_none(),
        },
{
    let v = chars_of(s);
    let (a0, b) = trim_bounds(&v);
    let ghost t = v@.subrange(a0 as int, b as int);
    let mut a = a0;
    while a < b && v[a] == '#'
        invariant
            a0 <= a <= b <= v.len(),
            t == v@.subrange(a0 as int, b as int),
            drop_hashes(t) == drop_hashes(v@.subrange(a as int, b as int)),
        decreases b - a,
    {
        assert(v@.subrange(a as int, b as int).drop_first() =~= v@.subrange(a + 1, b as int));
        a += 1;
    }
    let ghost u = v@.subrange(a as int, b as int);
    assert(drop_hashes(u) == u);
    assert(trim(s@) == t);
    if b - a != 6 {
        return None;
    }
    let n: u32 = match hex_run(&v, a, b) {
        Some(n) => n,
        None => {
            return None;
        },
    };
    let c: [u8; 3] = [(n >> 16) as u8, (n >> 8) as u8, n as u8];
    assert((n >> 16) as u8 == (n / 65536 % 256) as u8) by (bit_vector);
    assert((n >> 8) as u8 == (n / 256 % 256) as u8) by (bit_vector);
    assert(n as u8 == (n % 256) as u8) by (bit_vector);
    assert(c@ =~= parse_hex_spec(s@).unwrap());
    Some(c)
}

// ---------------------------------------------------------------------------
// Procedurally drawn cells
// ---------------------------------------------------------------------------

/// (up, down, left, right) arms of the common light, heavy and rounded
/// box-drawing glyphs.
pub open spec fn box_arms_spec(ch: char) -> Option<(bool, bool, bool, bool)> {
    if ch == '─' || ch == '━' {
        Some((false, false, true, true))
    } else if ch == '│' || ch == '┃' {
        Some((true, true, false, false))
    } else if ch == '┌' || ch == '┏' || ch == '╭' {
        Some((false, true, false, true))
    } else if ch == '┐' || ch == '┓' || ch == '╮' {
        Some((false, true, true, false))
    } else if ch == '└' || ch == '┗' || ch == '╰' {
        Some((true, false, false, true))
    } else if ch == '┘' || ch == '┛' || ch == '╯' {
        Some((true, false, true, false))
    } else if ch == '├' || ch == '┣' {
        Some((true, true, false, true))
    } else if ch == '┤' || ch == '┫' {
        Some((true, true, true, false))
    } else if ch == '┬' || ch == '┳' {
        Some((false, true, true, true))
    } else if ch == '┴' || ch == '┻' {
        Some((true, false, true, true))
    } else if ch == '┼' || ch == '╋' {
        Some((true, true, true, true))
    } else {
        None
    }
}

/// The arms of a box-drawing glyph, or `None` for any other character.
pub fn box_arms(ch: char) -> (r: Option<(bool, bool, bool, bool)>)
    ensures
        r == box_arms_spec(ch),
{
    if ch == '─' || ch == '━' {
        Some((false, false, true, true))
    } else if ch == '│' || ch == '┃' {
        Some((true, true, false, false))
    } else if ch == '┌' || ch == '┏' || ch == '╭' {
        Some((false, true, false, true))
    } else if ch == '┐' || ch == '┓' || ch == '╮' {
        Some((false, true, true, false))
    } else if ch == '└' || ch == '┗' || ch == '╰' {
        Some((true, false, false, true))
    } else if ch == '┘' || ch == '┛' || ch == '╯' {
        Some((true, false, true, false))
    } else if ch == '├' || ch == '┣' {
        Some((true, true, false, true))
    } else if ch == '┤' || ch == '┫' {
        Some((true, true, true, false))
    } else if ch == '┬' || ch == '┳' {
        Some((false, true, true, true))
    } else if ch == '┴' || ch == '┻' {
        Some((true, false, true, true))
    } else if ch == '┼' || ch == '╋' {
        Some((true, true, true, true))
    } else {
        None
    }
}

/// Block elements live at U+2580..=U+259F.
pub open spec fn is_block_char(ch: char) -> bool {
    0x2580 <= (ch as u32) <= 0x259f
}

/// Which quadrants (bit 0 top-left, 1 top-right, 2 bottom-left, 3
/// bottom-right) the quadrant glyph U+2596 + `q` fills.
pub open spec fn quadrant_mask(q: int) -> int {
    if q == 0 {
        0b0100
    } else if q == 1 {
        0b1000
    } else if q == 2 {
        0b0001
    } else if q == 3 {
        0b1101
    } else if q == 4 {
        0b1001
    } else if q == 5 {
        0b0111
    } else if q == 6 {
        0b1011
    } else if q == 7 {
        0b0010
    } else if q == 8 {
        0b0110
    } else {
        0b1110
    }
}

/// The quadrant bit of pixel `(x, y)` in a `w`×`h` cell.
pub open spec fn quadrant_bit(w: int, h: int, x: int, y: int) -> int {
    if x < w / 2 {
        if y < h / 2 {
            1
        } else {
            4
        }
    } else {
        if y < h / 2 {
            2
        } else {
            8
        }
    }
}

/// Whether the quadrant mask `m` holds bit `b` (`b` one of 1, 2, 4, 8).
pub open spec fn has_bit(m: int, b: int) -> bool {
    (m / b) % 2 == 1
}

/// Coverage of pixel `(x, y)` of the block element with code point `c` drawn
/// in a `w`×`h` cell: the full block and the three shades are uniform; the
/// halves, eighths and quadrants are filled (255) or empty (0).
pub open spec fn block_pixel(c: int, w: int, h: int, x: int, y: int) -> u8 {
    if c == 0x2588 {
        255
    } else if c == 0x2591 {
        64
    } else if c == 0x2592 {
        128
    } else if c == 0x2593 {
        192
    } else if {
        if c == 0x2580 {
            y < h / 2
        } else if c == 0x2584 {
            y >= h / 2
        } else if c == 0x258c {
            x < w / 2
        } else if c == 0x2590 {
            x >= w / 2
        } else if c == 0x2594 {
            y < h / 8
        } else if c == 0x2595 {
            x >= w - w / 8
        } else if 0x2581 <= c <= 0x2587 {
            y >= h - h * (c - 0x2580) / 8
        } else if 0x2589 <= c <= 0x258f {
            x < w * (0x2590 - c) / 8
        } else {
            has_bit(quadrant_mask(c - 0x2596), quadrant_bit(w, h, x, y))
        }
    } {
        255
    } else {
        0
    }
}

/// How the block elements relate: the full block covers every pixel, the
/// light, medium and dark shades cover each pixel at a quarter, a half and
/// three quarters (64, 128, 192), and the upper and lower halves, like the
/// left and right halves, are exact complements that together fill the cell.
pub proof fn lemma_block_shades(w: int, h: int, x: int, y: int)
    ensures
        block_pixel(0x2588, w, h, x, y) == 255,
        block_pixel(0x2591, w, h, x, y) == 64,
        block_pixel(0x2592, w, h, x, y) == 128,
        block_pixel(0x2593, w, h, x, y) == 192,
        block_pixel(0x2580, w, h, x, y) + block_pixel(0x2584, w, h, x, y) == 255,
        block_pixel(0x258c, w, h, x, y) + block_pixel(0x2590, w, h, x, y) == 255,
{
}

/// The stroke rectangles of a box-drawing glyph: the vertical stroke spans
/// columns `xl..xr`, the horizontal stroke rows `yt..yb`.
pub open spec fn box_xl(w: int) -> int {
    let vt = if w / 6 > 1 {
        w / 6
    } else {
        1
    };
    if w / 2 >= vt {
        w / 2 - vt
    } else {
        0
    }
}

pub open spec fn box_xr(w: int) -> int {
    let vt = if w / 6 > 1 {
        w / 6
    } else {
        1
    };
    if w / 2 + vt + 1 < w {
        w / 2 + vt + 1
    } else {
        w
    }
}

pub open spec fn box_yt(h: int) -> int {
    let ht = if h / 10 > 1 {
        h / 10
    } else {
        1
    };
    if h / 2 >= ht {
        h / 2 - ht
    } else {
        0
    }
}

pub open spec fn box_yb(h: int) -> int {
    let ht = if h / 10 > 1 {
        h / 10
    } else {
        1
    };
    if h / 2 + ht + 1 < h {
        h / 2 + ht + 1
    } else {
        h
    }
}

/// Whether pixel `(x, y)` of a `w`×`h` box-drawing cell is inked: each present
/// arm is a stroke from the cell's centre to its edge.
pub open spec fn box_on(arms: (bool, bool, bool, bool), w: int, h: int, x: int, y: int) -> bool {
    let (up, down, left, right) = arms;
    let in_v = box_xl(w) <= x < box_xr(w);
    let in_h = box_yt(h) <= y < box_yb(h);
    ||| up && in_v && y < box_yb(h)
    ||| down && in_v && y >= box_yt(h)
    ||| left && in_h && x < box_xr(w)
    ||| right && in_h && x >= box_xl(w)
}

/// A glyph drawn procedurally into a cell.
pub enum CellShape {
    Block(u32),
    Box(bool, bool, bool, bool),
}

/// A block shape carries a block-element code point.
pub open spec fn shape_ok(shape: CellShape) -> bool {
    match shape {
        CellShape::Block(c) => 0x2580 <= c <= 0x259f,
        CellShape::Box(..) => true,
    }
}

pub open spec fn shape_pixel(shape: CellShape, w: int, h: int, x: int, y: int) -> u8 {
    match shape {
        CellShape::Block(c) => block_pixel(c as int, w, h, x, y),
        CellShape::Box(u, d, l, r) => if box_on((u, d, l, r), w, h, x, y) {
            255
        } else {
            0
        },
    }
}

/// A `w`×`h` coverage buffer (row-major) whose pixel `(x, y)` is `pixel(x, y)`.
pub open spec fn is_cell(v: Seq<u8>, w: int, h: int, shape: CellShape) -> bool {
    &&& v.len() == w * h
    &&& forall|x: int, y: int|
        0 <= x < w && 0 <= y < h ==> #[trigger] v[y * w + x] == shape_pixel(shape, w, h, x, y)
}

fn shape_pixel_exec(shape: &CellShape, w: usize, h: usize, x: usize, y: usize) -> (r: u8)
    requires
        x < w,
        y < h,
        shape_ok(*shape),
    ensures
        r == shape_pixel(*shape, w as int, h as int, x as int, y as int),
{
    match shape {
        CellShape::Block(c) => {
            let c = *c;
            if c == 0x2588 {
                255
            } else if c == 0x2591 {
                64
            } else if c == 0x2592 {
                128
            } else if c == 0x2593 {
                192
            } else {
                let on = if c == 0x2580 {
                    y < h / 2
                } else if c == 0x2584 {
                    y >= h / 2
                } else if c == 0x258c {
                    x < w / 2
                } else if c == 0x2590 {
                    x >= w / 2
                } else if c == 0x2594 {
                    y < h / 8
                } else if c == 0x2595 {
                    x >= w - w / 8
                } else if 0x2581 <= c && c <= 0x2587 {
                    let k: usize = (c - 0x2580) as usize;
                    assert((h / 8) * k + (h % 8) * k / 8 <= h && (h % 8) * k < 64) by (nonlinear_arith)
                        requires
                            k < 8,
                    ;
                    let fill: usize = (h / 8) * k + (h % 8) * k / 8;
                    assert(fill == h * k / 8) by (nonlinear_arith)
                        requires
                            fill == (h / 8) * k + (h % 8) * k / 8,
                            k < 8,
                    ;
                    y >= h - fill
                } else if 0x2589 <= c && c <= 0x258f {
                    let k: usize = (0x2590 - c) as usize;
                    assert((w / 8) * k + (w % 8) * k / 8 <= w && (w % 8) * k < 64) by (nonlinear_arith)
                        requires
                            k < 8,
                    ;
                    let fill: usize = (w / 8) * k + (w % 8) * k / 8;
                    assert(fill == w * k / 8) by (nonlinear_arith)
                        requires
                            fill == (w / 8) * k + (w % 8) * k / 8,
                            k < 8,
                    ;
                    x < fill
                } else {
                    let q: u32 = c - 0x2596;
                    let mask: u32 = if q == 0 {
                        0b0100
                    } else if q == 1 {
                        0b1000
                    } else if q == 2 {
                        0b0001
                    } else if q == 3 {
                        0b1101
                    } else if q == 4 {
                        0b1001
                    } else if q == 5 {
                        0b0111
                    } else if q == 6 {
                        0b1011
                    } else if q == 7 {
                        0b0010
                    } else if q == 8 {
                        0b0110
                    } else {
                        0b1110
                    };
                    let bit: u32 = if x < w / 2 {
                        if y < h / 2 {
                            1
                        } else {
                            4
                        }
                    } else {
                        if y < h / 2 {
                            2
                        } else {
                            8
                        }
                    };
                    (mask / bit) % 2 == 1
                };
                if on {
                    255
                } else {
                    0
                }
            }
        },
        CellShape::Box(u, d, l, r) => {
            let vt: usize = if w / 6 > 1 {
                w / 6
            } else {
                1
            };
            let ht: usize = if h / 10 > 1 {
                h / 10
            } else {
                1
            };
            let xl: usize = (w / 2).saturating_sub(vt);
            let xr: usize = if w / 2 + vt + 1 < w {
                w / 2 + vt + 1
            } else {
                w
            };
            let yt: usize = (h / 2).saturating_sub(ht);
            let yb: usize = if h / 2 + ht + 1 < h {
                h / 2 + ht + 1
            } else {
                h
            };
            let in_v = xl <= x && x < xr;
            let in_h = yt <= y && y < yb;
            let on = (*u && in_v && y < yb) || (*d && in_v && y >= yt) || (*l && in_h && x < xr) || (
            *r && in_h && x >= xl);
            if on {
                255
            } else {
                0
            }
        },
    }
}

proof fn lemma_row_major(w: int, x: int, y: int, x2: int, y2: int)
    requires
        0 <= x < w,
        0 <= x2 < w,
        0 <= y2 < y,
    ensures
        y2 * w + x2 < y * w + x,
        0 <= y2 * w + x2,
{
    assert(y2 * w + x2 < y * w + x) by (nonlinear_arith)
        requires
            0 <= x < w,
            0 <= x2 < w,
            0 <= y2 < y,
    ;
    assert(0 <= y2 * w) by (nonlinear_arith)
        requires
            0 <= y2,
            0 <= w,
    ;
}

/// Draw `shape` into a fresh `w`×`h` coverage buffer.
fn fill_cell(shape: &CellShape, w: usize, h: usize) -> (v: Vec<u8>)
    requires
        w * h <= usize::MAX,
        shape_ok(*shape),
    ensures
        is_cell(v@, w as int, h as int, *shape),
{
    let mut v: Vec<u8> = Vec::new();
    assert(0 * w == 0);
    for y in 0..h
        invariant
            w * h <= usize::MAX,
            shape_ok(*shape),
            v@.len() == y * w,
            forall|x2: int, y2: int|
                0 <= x2 < w && 0 <= y2 < y ==> #[trigger] v@[y2 * w + x2] == shape_pixel(
                    *shape,
                    w as int,
                    h as int,
                    x2,
                    y2,
                ),
    {
        for x in 0..w
            invariant
                w * h <= usize::MAX,
                y < h,
                shape_ok(*shape),
                v@.len() == y * w + x,
                forall|x2: int, y2: int|
                    0 <= x2 < w && 0 <= y2 <= y && (y2 < y || x2 < x) ==> #[trigger] v@[y2 * w
                        + x2] == shape_pixel(*shape, w as int, h as int, x2, y2),
        {
            let p = shape_pixel_exec(shape, w, h, x, y);
            let ghost before = v@;
            v.push(p);
            proof {
                assert forall|x2: int, y2: int|
                    0 <= x2 < w && 0 <= y2 <= y && (y2 < y || x2 < x + 1) implies #[trigger] v@[y2
                        * w + x2] == shape_pixel(*shape, w as int, h as int, x2, y2) by {
                    if y2 < y {
                        lemma_row_major(w as int, x as int, y as int, x2, y2);
                    } else {
                        assert(y2 * w + x2 == y * w + x2);
                    }
                }
            }
        }
        assert((y + 1) * w == y * w + w) by (nonlinear_arith);
    }
    assert(h * w == w * h) by (nonlinear_arith);
    v
}

/// Coverage for a block element (U+2580..=U+259F) drawn to fill a `w`×`h`
/// cell, or `None` for any other character.
pub fn block_cell(ch: char, w: usize, h: usize) -> (r: Option<Vec<u8>>)
    requires
        w * h <= usize::MAX,
    ensures
        is_block_char(ch) <==> r.is_some(),
        r.is_some() ==> is_cell(r.unwrap()@, w as int, h as int, CellShape::Block(ch as u32)),
{
    let c: u32 = ch as u32;
    if 0x2580 <= c && c <= 0x259f {
        Some(fill_cell(&CellShape::Block(c), w, h))
    } else {
        None
    }
}

/// Coverage for a box-drawing glyph drawn from the cell's centre to the edges
/// of a `w`×`h` cell, or `None` for any other character.
pub fn box_cell(ch: char, w: usize, h: usize) -> (r: Option<Vec<u8>>)
    requires
        w * h <= usize::MAX,
    ensures
        box_arms_spec(ch).is_some() <==> r.is_some(),
        r.is_some() ==> ({
            let (u, d, l, rt) = box_arms_spec(ch).unwrap();
            is_cell(r.unwrap()@, w as int, h as int, CellShape::Box(u, d, l, rt))
        }),
{
    match box_arms(ch) {
        Some((u, d, l, rt)) => Some(fill_cell(&CellShape::Box(u, d, l, rt), w, h)),
        None => None,
    }
}

// ---------------------------------------------------------------------------
// Render plan
// ---------------------------------------------------------------------------

/// The pixel geometry and rate of a render.
pub struct Plan {
    pub width: usize,
    pub height: usize,
    pub fps: u32,
}

/// The font size of the first pane that sets one, among the first `n` panes.
pub open spec fn first_font_size(sizes: Seq<Option<u32>>, n: int) -> Option<u32>
    decreases n,
{
    if n <= 0 {
        None
    } else {
        match first_font_size(sizes, n - 1) {
            Some(px) => Some(px),
            None => sizes[n - 1],
        }
    }
}

/// The panes' font sizes, in order.
pub open spec fn pane_font_sizes(score: Score) -> Seq<Option<u32>> {
    score.layout.panes@.map_values(|p: crate::model::Pane| p.font_size)
}

/// The terminal font size a render uses: the first pane that sets one, else 16.
pub fn render_font_px(score: &Score) -> (r: u32)
    ensures
        r == match first_font_size(pane_font_sizes(*score), score.layout.panes@.len() as int) {
            Some(px) => px,
            None => 16,
        },
{
    let panes = &score.layout.panes;
    let mut i: usize = 0;
    while i < panes.len()
        invariant
            i <= panes@.len(),
            panes@ == score.layout.panes@,
            first_font_size(pane_font_sizes(*score), i as int).is_none(),
        decreases panes@.len() - i,
    {
        if let Some(px) = panes[i].font_size {
            assert(pane_font_sizes(*score)[i as int] == Some(px));
            assert(first_font_size(pane_font_sizes(*score), i + 1) == Some(px));
            proof {
                lemma_first_font_size_settles(pane_font_sizes(*score), i + 1, panes@.len() as int);
            }
            return px;
        }
        assert(pane_font_sizes(*score)[i as int] == panes@[i as int].font_size);
        i += 1;
    }
    16
}

proof fn lemma_first_font_size_settles(sizes: Seq<Option<u32>>, a: int, b: int)
    requires
        0 <= a <= b,
        first_font_size(sizes, a).is_some(),
    ensures
        first_font_size(sizes, b) == first_font_size(sizes, a),
    decreases b - a,
{
    if a < b {
        lemma_first_font_size_settles(sizes, a, b - 1);
    }
}

/// The render plan of a `cols`×`rows` terminal drawn in `cell_w`×`cell_h`
/// pixel cells at `fps` (at least 1).
pub fn plan(cols: u16, rows: u16, cell_w: usize, cell_h: usize, fps: u32) -> (p: Plan)
    requires
        cols * cell_w <= usize::MAX,
        rows * cell_h <= usize::MAX,
    ensures
        p.width == cols * cell_w,
        p.height == rows * cell_h,
        p.fps == if fps == 0 {
            1
        } else {
            fps
        },
{
    Plan {
        width: cols as usize * cell_w,
        height: rows as usize * cell_h,
        fps: if fps == 0 {
            1
        } else {
            fps
        },
    }
}

// ---------------------------------------------------------------------------
// Captions
// ---------------------------------------------------------------------------

/// Where the leading run of captions that start by `t` ends, from `i` on.
pub open spec fn started_end(caps: Seq<(u64, Seq<char>)>, t: u64, i: int) -> int
    decreases caps.len() - i,
{
    if i < 0 || i >= caps.len() || caps[i].0 > t {
        i
    } else {
        started_end(caps, t, i + 1)
    }
}

/// The caption showing at `t`: the latest of the leading captions that have
/// started by then, unless it is empty (an empty caption clears the bar).
pub open spec fn active_caption_spec(caps: Seq<(u64, Seq<char>)>, t: u64) -> Option<Seq<char>> {
    let k = started_end(caps, t, 0);
    if k == 0 || caps[k - 1].1.len() == 0 {
        None
    } else {
        Some(caps[k - 1].1)
    }
}

/// The captions by their views.
pub open spec fn captions_view(caps: Seq<(u64, String)>) -> Seq<(u64, Seq<char>)> {
    caps.map_values(|c: (u64, String)| (c.0, c.1@))
}

/// The caption text showing at `t_ms`, if any.
pub fn active_caption(caps: &[(u64, String)], t_ms: u64) -> (r: Option<&str>)
    ensures
        match r {
            Some(s) => active_caption_spec(captions_view(caps@), t_ms) == Some(s@),
            None => active_caption_spec(captions_view(caps@), t_ms).is_none(),
        },
{
    let ghost cv = captions_view(caps@);
    let mut i: usize = 0;
    while i < caps.len() && caps[i].0 <= t_ms
        invariant
            i <= caps@.len(),
            cv == captions_view(caps@),
            started_end(cv, t_ms, 0) == started_end(cv, t_ms, i as int),
        decreases caps@.len() - i,
    {
        i += 1;
    }
    assert(started_end(cv, t_ms, i as int) == i);
    if i == 0 {
        return None;
    }
    let text = caps[i - 1].1.as_str();
    assert(cv[i - 1] == (caps@[i - 1].0, caps@[i - 1].1@));
    if text.unicode_len() == 0 {
        None
    } else {
        Some(text)
    }
}

// ---------------------------------------------------------------------------
// Fallback report
// ---------------------------------------------------------------------------

/// Braille patterns (U+2800..=U+28FF) are always drawn procedurally, so they
/// are never reported.
pub open spec fn is_braille(ch: char) -> bool {
    0x2800 <= (ch as u32) <= 0x28ff
}

/// Keys strictly increasing by code point.
pub open spec fn chars_increasing(s: Seq<char>) -> bool {
    forall|i: int, j: int| 0 <= i < j < s.len() ==> s[i] < s[j]
}

pub open spec fn keys_of(s: Seq<(char, Seq<char>)>) -> Seq<char> {
    s.map_values(|p: (char, Seq<char>)| p.0)
}

pub open spec fn values_of(s: Seq<(char, Seq<char>)>) -> Seq<Seq<char>> {
    s.map_values(|p: (char, Seq<char>)| p.1)
}

/// `t` is `s` with `x` inserted at its place by code point (`x` not in `s`).
pub open spec fn inserted_char(s: Seq<char>, x: char, t: Seq<char>) -> bool {
    exists|i: int|
        0 <= i <= s.len() && (forall|j: int| 0 <= j < i ==> (#[trigger] s[j]) < x) && (
        i < s.len() ==> x < s[i]) && t == s.insert(i, x)
}

/// `t` is `s` with the entry `(x, v)` inserted at its place by key.
pub open spec fn inserted_entry(
    s: Seq<(char, Seq<char>)>,
    x: char,
    v: Seq<char>,
    t: Seq<(char, Seq<char>)>,
) -> bool {
    exists|i: int|
        0 <= i <= s.len() && (forall|j: int| 0 <= j < i ==> (#[trigger] s[j]).0 < x)
            && (i < s.len() ==> x < s[i].0) && t == s.insert(i, (x, v))
}

/// Strict lexicographic order on strings (by code point, which is also the
/// byte order of their UTF-8 encodings).
pub open spec fn lex_lt(a: Seq<char>, b: Seq<char>) -> bool
    decreases a.len(),
{
    if a.len() == 0 {
        b.len() > 0
    } else if b.len() == 0 {
        false
    } else if a[0] != b[0] {
        a[0] < b[0]
    } else {
        lex_lt(a.drop_first(), b.drop_first())
    }
}

proof fn lemma_lex_total(a: Seq<char>, b: Seq<char>)
    ensures
        a == b || lex_lt(a, b) || lex_lt(b, a),
        !(lex_lt(a, b) && lex_lt(b, a)),
        !lex_lt(a, a),
    decreases a.len(),
{
    if a.len() > 0 && b.len() > 0 {
        lemma_lex_total(a.drop_first(), b.drop_first());
        lemma_lex_total(a.drop_first(), a.drop_first());
        if a[0] == b[0] && a.drop_first() == b.drop_first() {
            assert forall|i: int| 0 <= i < a.len() implies a[i] == b[i] by {
                if i > 0 {
                    assert(a[i] == a.drop_first()[i - 1]);
                    assert(b[i] == b.drop_first()[i - 1]);
                }
            }
            assert(a =~= b);
        }
    } else if a.len() > 0 {
        lemma_lex_total(a.drop_first(), a.drop_first());
    } else if b.len() == 0 {
        assert(a =~= b);
    }
}

/// Strings strictly increasing in lexicographic order.
pub open spec fn strs_increasing(s: Seq<Seq<char>>) -> bool {
    forall|i: int| 0 <= i < s.len() - 1 ==> lex_lt(#[trigger] s[i], s[i + 1])
}

/// `fl` lists the distinct font names of `s`, in increasing order.
pub open spec fn is_font_list(fl: Seq<Seq<char>>, s: Seq<(char, Seq<char>)>) -> bool {
    &&& strs_increasing(fl)
    &&& fl.to_set() == values_of(s).to_set()
}

pub open spec fn plural_suffix(n: nat) -> Seq<char> {
    if n == 1 {
        seq![]
    } else {
        "s"@
    }
}

/// The line naming the characters that were drawn with a fallback font.
pub open spec fn fallback_line(
    demo: Seq<char>,
    primary: Seq<char>,
    fallen: Seq<(char, Seq<char>)>,
    fonts: Seq<Seq<char>>,
) -> Seq<char> {
    let primary_name = if primary.len() == 0 {
        "primary font"@
    } else {
        primary
    };
    demo + ": "@ + decimal(fallen.len()) + " character"@ + plural_suffix(fallen.len()) + " not in "@
        + primary_name + ", drawn with "@ + join(fonts, ", "@) + ": "@ + keys_of(fallen)
}

/// The line naming the characters no bundled font could draw.
pub open spec fn unresolved_line(demo: Seq<char>, unresolved: Seq<char>) -> Seq<char> {
    demo + ": "@ + decimal(unresolved.len()) + " character"@ + plural_suffix(unresolved.len())
        + " no bundled font can draw, rendered blank: "@ + unresolved
}

/// The report's lines: one for the fallen-back characters, one for the
/// unresolved ones, each only when it has characters.
pub open spec fn report_lines(
    demo: Seq<char>,
    primary: Seq<char>,
    fallen: Seq<(char, Seq<char>)>,
    unresolved: Seq<char>,
    fonts: Seq<Seq<char>>,
) -> Seq<Seq<char>> {
    let first: Seq<Seq<char>> = if fallen.len() > 0 {
        seq![fallback_line(demo, primary, fallen, fonts)]
    } else {
        seq![]
    };
    if unresolved.len() > 0 {
        first.push(unresolved_line(demo, unresolved))
    } else {
        first
    }
}

/// The name a fallback line gives the primary font.
pub open spec fn primary_label(primary: Seq<char>) -> Seq<char> {
    if primary.len() == 0 {
        "primary font"@
    } else {
        primary
    }
}

/// The report has one line for fallen-back characters and one for unresolved
/// ones, each only when there are some: so it has no lines exactly when
/// nothing was recorded. Every line opens with the demo's name and `: `, and
/// counts its characters with a singular noun only for one.
pub proof fn lemma_report_lines(
    demo: Seq<char>,
    primary: Seq<char>,
    fallen: Seq<(char, Seq<char>)>,
    unresolved: Seq<char>,
    fonts: Seq<Seq<char>>,
)
    ensures
        ({
            let lines = report_lines(demo, primary, fallen, unresolved, fonts);
            &&& lines.len() == (if fallen.len() > 0 {
                1int
            } else {
                0
            }) + (if unresolved.len() > 0 {
                1int
            } else {
                0
            })
            &&& (lines.len() == 0 <==> fallen.len() == 0 && unresolved.len() == 0)
            &&& forall|i: int| 0 <= i < lines.len() ==> (demo + ": "@).is_prefix_of(#[trigger] lines[i])
            &&& fallen.len() > 0 ==> lines[0] == demo + ": "@ + decimal(fallen.len()) + " character"@
                + plural_suffix(fallen.len()) + " not in "@ + primary_label(primary)
                + ", drawn with "@ + join(fonts, ", "@) + ": "@ + keys_of(fallen)
            &&& (plural_suffix(fallen.len()).len() == 0 <==> fallen.len() == 1)
            &&& (plural_suffix(unresolved.len()).len() == 0 <==> unresolved.len() == 1)
        }),
{
    reveal_strlit("s");
    let lines = report_lines(demo, primary, fallen, unresolved, fonts);
    let head = demo + ": "@;
    assert forall|i: int| 0 <= i < lines.len() implies head.is_prefix_of(#[trigger] lines[i]) by {
        let l = lines[i];
        if fallen.len() > 0 && i == 0 {
            assert(l == fallback_line(demo, primary, fallen, fonts));
            assert(l.subrange(0, head.len() as int) =~= head);
        } else {
            assert(l == unresolved_line(demo, unresolved));
            assert(l.subrange(0, head.len() as int) =~= head);
        }
    }
}

/// Naming the primary font changes only that name: the report of the same
/// characters has the same lines, except that the fallback line says
/// `not in <name>` where an unnamed primary gives `not in primary font`.
pub proof fn lemma_report_primary_name(
    demo: Seq<char>,
    primary: Seq<char>,
    fallen: Seq<(char, Seq<char>)>,
    unresolved: Seq<char>,
    fonts: Seq<Seq<char>>,
)
    ensures
        ({
            let named = report_lines(demo, primary, fallen, unresolved, fonts);
            let unnamed = report_lines(demo, Seq::empty(), fallen, unresolved, fonts);
            let before = demo + ": "@ + decimal(fallen.len()) + " character"@ + plural_suffix(fallen.len())
                + " not in "@;
            let after = ", drawn with "@ + join(fonts, ", "@) + ": "@ + keys_of(fallen);
            &&& named.len() == unnamed.len()
            &&& fallen.len() > 0 ==> named[0] == before + primary_label(primary) + after
                && unnamed[0] == before + "primary font"@ + after
            &&& unresolved.len() > 0 ==> named.last() == unnamed.last()
            &&& primary.len() == 0 ==> named == unnamed
        }),
{
}

/// What recording a fallback for `ch` (drawn with `font`) does to the
/// fallen-back list: braille and an already listed character leave it as it
/// is; any other character is inserted at its place.
pub open spec fn fallback_step(
    f: Seq<(char, Seq<char>)>,
    ch: char,
    font: Seq<char>,
    f2: Seq<(char, Seq<char>)>,
) -> bool {
    if is_braille(ch) || keys_of(f).contains(ch) {
        f2 == f
    } else {
        inserted_entry(f, ch, font, f2)
    }
}

/// What recording `ch` as unresolved does to the unresolved list: braille and
/// an already listed character leave it as it is; any other character is
/// inserted at its place.
pub open spec fn unresolved_step(u: Seq<char>, ch: char, u2: Seq<char>) -> bool {
    if is_braille(ch) || u.contains(ch) {
        u2 == u
    } else {
        inserted_char(u, ch, u2)
    }
}

/// A report as `(primary font name, fallen-back characters, unresolved
/// characters)`.
pub type ReportState = (Seq<char>, Seq<(char, Seq<char>)>, Seq<char>);

/// One call on a report: `(true, ch, font)` is `record_fallback(ch, font)`,
/// `(false, ch, _)` is `record_unresolved(ch)`; `b` is what the call's
/// contract leaves of `a`.
pub open spec fn report_step(a: ReportState, call: (bool, char, Seq<char>), b: ReportState) -> bool {
    &&& b.0 == a.0
    &&& if call.0 {
        fallback_step(a.1, call.1, call.2, b.1) && b.2 == a.2
    } else {
        unresolved_step(a.2, call.1, b.2) && b.1 == a.1
    }
}

/// `states` are a report before and after each of `calls`, in turn, starting
/// from a report with nothing recorded.
pub open spec fn report_trace(states: Seq<ReportState>, calls: Seq<(bool, char, Seq<char>)>) -> bool {
    &&& states.len() == calls.len() + 1
    &&& states[0].1.len() == 0
    &&& states[0].2.len() == 0
    &&& forall|i: int| 0 <= i < calls.len() ==> report_step(#[trigger] states[i], calls[i], states[i + 1])
}

proof fn lemma_trace_empty_prefix(states: Seq<ReportState>, calls: Seq<(bool, char, Seq<char>)>, k: int)
    requires
        report_trace(states, calls),
        0 <= k <= calls.len(),
    ensures
        (states[k].1.len() == 0 && states[k].2.len() == 0) <==> forall|i: int|
            0 <= i < k ==> is_braille(#[trigger] calls[i].1),
    decreases k,
{
    if k > 0 {
        lemma_trace_empty_prefix(states, calls, k - 1);
        let a = states[k - 1];
        let b = states[k];
        let c = calls[k - 1];
        assert(report_step(a, c, b));
        if c.0 {
            if !(is_braille(c.1) || keys_of(a.1).contains(c.1)) {
                let i = choose|i: int|
                    0 <= i <= a.1.len() && (forall|j: int| 0 <= j < i ==> (#[trigger] a.1[j]).0 < c.1)
                        && (i < a.1.len() ==> c.1 < a.1[i].0) && b.1 == a.1.insert(i, (c.1, c.2));
                assert(b.1.len() == a.1.len() + 1);
            } else if keys_of(a.1).contains(c.1) {
                assert(a.1.len() > 0);
            }
        } else {
            if !(is_braille(c.1) || a.2.contains(c.1)) {
                let i = choose|i: int|
                    0 <= i <= a.2.len() && (forall|j: int| 0 <= j < i ==> (#[trigger] a.2[j]) < c.1)
                        && (i < a.2.len() ==> c.1 < a.2[i]) && b.2 == a.2.insert(i, c.1);
                assert(b.2.len() == a.2.len() + 1);
            } else if a.2.contains(c.1) {
                assert(a.2.len() > 0);
            }
        }
        if !is_braille(c.1) {
            assert(!(forall|i: int| 0 <= i < k ==> is_braille(#[trigger] calls[i].1))) by {
                assert(!is_braille(calls[k - 1].1));
            }
        }
        if is_braille(c.1) {
            assert((forall|i: int| 0 <= i < k ==> is_braille(#[trigger] calls[i].1)) <==> (forall|i: int|
                0 <= i < k - 1 ==> is_braille(#[trigger] calls[i].1)));
        }
    }
}

/// Braille is never reported: after any sequence of calls on a report that
/// started with nothing recorded, it is empty exactly when every character
/// recorded was braille; and the calls never change its primary font name.
pub proof fn lemma_report_empty_iff_braille(states: Seq<ReportState>, calls: Seq<(bool, char, Seq<char>)>)
    requires
        report_trace(states, calls),
    ensures
        (states.last().1.len() == 0 && states.last().2.len() == 0) <==> forall|i: int|
            0 <= i < calls.len() ==> is_braille(#[trigger] calls[i].1),
        states.last().0 == states[0].0,
{
    lemma_trace_empty_prefix(states, calls, calls.len() as int);
    lemma_trace_primary(states, calls, calls.len() as int);
}

proof fn lemma_trace_primary(states: Seq<ReportState>, calls: Seq<(bool, char, Seq<char>)>, k: int)
    requires
        report_trace(states, calls),
        0 <= k <= calls.len(),
    ensures
        states[k].0 == states[0].0,
    decreases k,
{
    if k > 0 {
        lemma_trace_primary(states, calls, k - 1);
        assert(report_step(states[k - 1], calls[k - 1], states[k]));
    }
}

proof fn lemma_inserted_entry_unique(s: Seq<(char, Seq<char>)>, x: char, v: Seq<char>, t1: Seq<(char, Seq<char>)>, t2: Seq<(char, Seq<char>)>)
    requires
        inserted_entry(s, x, v, t1),
        inserted_entry(s, x, v, t2),
    ensures
        t1 == t2,
{
    let i1 = choose|i: int|
        0 <= i <= s.len() && (forall|j: int| 0 <= j < i ==> (#[trigger] s[j]).0 < x) && (i < s.len()
            ==> x < s[i].0) && t1 == s.insert(i, (x, v));
    let i2 = choose|i: int|
        0 <= i <= s.len() && (forall|j: int| 0 <= j < i ==> (#[trigger] s[j]).0 < x) && (i < s.len()
            ==> x < s[i].0) && t2 == s.insert(i, (x, v));
    if i1 < i2 {
        assert(s[i1].0 < x);
    } else if i2 < i1 {
        assert(s[i2].0 < x);
    }
}

proof fn lemma_inserted_char_unique(s: Seq<char>, x: char, t1: Seq<char>, t2: Seq<char>)
    requires
        inserted_char(s, x, t1),
        inserted_char(s, x, t2),
    ensures
        t1 == t2,
{
    let i1 = choose|i: int|
        0 <= i <= s.len() && (forall|j: int| 0 <= j < i ==> (#[trigger] s[j]) < x) && (i < s.len() ==> x
            < s[i]) && t1 == s.insert(i, x);
    let i2 = choose|i: int|
        0 <= i <= s.len() && (forall|j: int| 0 <= j < i ==> (#[trigger] s[j]) < x) && (i < s.len() ==> x
            < s[i]) && t2 == s.insert(i, x);
    if i1 < i2 {
        assert(s[i1] < x);
    } else if i2 < i1 {
        assert(s[i2] < x);
    }
}

proof fn lemma_traces_agree(
    sa: Seq<ReportState>,
    sb: Seq<ReportState>,
    calls: Seq<(bool, char, Seq<char>)>,
    k: int,
)
    requires
        report_trace(sa, calls),
        report_trace(sb, calls),
        0 <= k <= calls.len(),
    ensures
        sa[k].1 == sb[k].1,
        sa[k].2 == sb[k].2,
    decreases k,
{
    if k == 0 {
        assert(sa[0].1 =~= sb[0].1);
        assert(sa[0].2 =~= sb[0].2);
    } else {
        lemma_traces_agree(sa, sb, calls, k - 1);
        let c = calls[k - 1];
        assert(report_step(sa[k - 1], c, sa[k]));
        assert(report_step(sb[k - 1], c, sb[k]));
        if c.0 {
            if !(is_braille(c.1) || keys_of(sa[k - 1].1).contains(c.1)) {
                lemma_inserted_entry_unique(sa[k - 1].1, c.1, c.2, sa[k].1, sb[k].1);
            }
        } else {
            if !(is_braille(c.1) || sa[k - 1].2.contains(c.1)) {
                lemma_inserted_char_unique(sa[k - 1].2, c.1, sa[k].2, sb[k].2);
            }
        }
    }
}

/// Naming the primary font changes only that name: two reports that started
/// with nothing recorded (say one from `new`, one from `with_primary_name`)
/// and then took the same calls hold the same characters, and their reports'
/// lines agree but for `not in <name>` in place of `not in primary font`.
pub proof fn lemma_report_name_only(
    sa: Seq<ReportState>,
    sb: Seq<ReportState>,
    calls: Seq<(bool, char, Seq<char>)>,
    demo: Seq<char>,
    fonts: Seq<Seq<char>>,
)
    requires
        report_trace(sa, calls),
        report_trace(sb, calls),
        sb[0].0.len() == 0,
    ensures
        sa.last().1 == sb.last().1,
        sa.last().2 == sb.last().2,
        ({
            let named = report_lines(demo, sa.last().0, sa.last().1, sa.last().2, fonts);
            let unnamed = report_lines(demo, sb.last().0, sb.last().1, sb.last().2, fonts);
            let f = sa.last().1;
            let before = demo + ": "@ + decimal(f.len()) + " character"@ + plural_suffix(f.len())
                + " not in "@;
            let after = ", drawn with "@ + join(fonts, ", "@) + ": "@ + keys_of(f);
            &&& named.len() == unnamed.len()
            &&& f.len() > 0 ==> named[0] == before + primary_label(sa[0].0) + after && unnamed[0]
                == before + "primary font"@ + after
            &&& sa.last().2.len() > 0 ==> named.last() == unnamed.last()
        }),
{
    let n = calls.len() as int;
    lemma_traces_agree(sa, sb, calls, n);
    lemma_trace_primary(sa, calls, n);
    lemma_trace_primary(sb, calls, n);
    lemma_report_primary_name(demo, sa.last().0, sa.last().1, sa.last().2, fonts);
    assert(sb.last().0 =~= Seq::<char>::empty());
}

/// Records which characters needed a fallback font during an export (with the
/// font that drew each, the first one recorded), and which characters no
/// bundled font could draw. Both are kept in code-point order; braille is
/// never recorded.
pub struct FallbackReport {
    primary_font_name: String,
    fallen_back: Vec<(char, &'static str)>,
    unresolved: Vec<char>,
}

impl FallbackReport {
    /// The name of the primary font (empty when unknown).
    pub closed spec fn primary(&self) -> Seq<char> {
        self.primary_font_name@
    }

    /// The fallen-back characters with their fonts, in code-point order.
    pub closed spec fn fallen(&self) -> Seq<(char, Seq<char>)> {
        self.fallen_back@.map_values(|p: (char, &str)| (p.0, p.1@))
    }

    /// The unresolved characters, in code-point order.
    pub closed spec fn unresolved(&self) -> Seq<char> {
        self.unresolved@
    }

    #[verifier::type_invariant]
    closed spec fn inv(&self) -> bool {
        &&& chars_increasing(keys_of(self.fallen()))
        &&& chars_increasing(self.unresolved())
    }

    /// An empty report for an unnamed primary font.
    pub fn new() -> (r: Self)
        ensures
            r.primary() == Seq::<char>::empty(),
            r.fallen() == Seq::<(char, Seq<char>)>::empty(),
            r.unresolved() == Seq::<char>::empty(),
    {
        let r = FallbackReport {
            primary_font_name: String::new(),
            fallen_back: Vec::new(),
            unresolved: Vec::new(),
        };
        assert(r.fallen() =~= Seq::<(char, Seq<char>)>::empty());
        r
    }

    /// An empty report for the primary font `name`.
    pub fn with_primary_name(name: &str) -> (r: Self)
        ensures
            r.primary() == name@,
            r.fallen() == Seq::<(char, Seq<char>)>::empty(),
            r.unresolved() == Seq::<char>::empty(),
    {
        let r = FallbackReport {
            primary_font_name: name.to_string(),
            fallen_back: Vec::new(),
            unresolved: Vec::new(),
        };
        assert(r.fallen() =~= Seq::<(char, Seq<char>)>::empty());
        r
    }

    /// Note that `ch` was drawn with `font_name`; a character already noted
    /// keeps its first font, and braille is ignored.
    pub fn record_fallback(&mut self, ch: char, font_name: &'static str)
        ensures
            final(self).primary() == old(self).primary(),
            final(self).unresolved() == old(self).unresolved(),
            fallback_step(old(self).fallen(), ch, font_name@, final(self).fallen()),
    {
        proof {
            use_type_invariant(&*self);
        }
        let c: u32 = ch as u32;
        if c >= 0x2800 && c <= 0x28ff {
            return;
        }
        let ghost s = old(self).fallen();
        let mut i: usize = 0;
        while i < self.fallen_back.len() && self.fallen_back[i].0 < ch
            invariant
                0 <= i <= self.fallen_back@.len(),
                s == self.fallen(),
                self.fallen_back@ == old(self).fallen_back@,
                chars_increasing(keys_of(s)),
                forall|j: int| 0 <= j < i ==> (#[trigger] s[j]).0 < ch,
            decreases self.fallen_back@.len() - i,
        {
            assert(s[i as int].0 == self.fallen_back@[i as int].0);
            i += 1;
        }
        proof {
            if i < s.len() {
                assert(s[i as int].0 == self.fallen_back@[i as int].0);
            }
        }
        if i < self.fallen_back.len() && self.fallen_back[i].0 == ch {
            proof {
                assert(keys_of(s)[i as int] == ch);
            }
            return;
        }
        proof {
            if keys_of(s).contains(ch) {
                let k = choose|k: int| 0 <= k < keys_of(s).len() && keys_of(s)[k] == ch;
                if k >= i {
                    assert(keys_of(s)[i as int] == s[i as int].0);
                }
            }
        }
        let mut entries: Vec<(char, &'static str)> = Vec::new();
        std::mem::swap(&mut entries, &mut self.fallen_back);
        entries.insert(i, (ch, font_name));
        proof {
            let t = entries@.map_values(|p: (char, &str)| (p.0, p.1@));
            assert(t =~= s.insert(i as int, (ch, font_name@)));
            let kt = keys_of(t);
            let ks = keys_of(s);
            assert forall|a: int, b: int| 0 <= a < b < kt.len() implies kt[a] < 
            kt[b] by {
                if a < i && b == i {
                    assert(kt[a] == ks[a]);
                } else if a == i && b > i {
                    assert(kt[b] == ks[b - 1]);
                    if b - 1 > i {
                        assert(ks[i as int] < ks[b - 1]);
                    }
                } else if a < i && b > i {
                    assert(kt[a] == ks[a]);
                    assert(kt[b] == ks[b - 1]);
                } else if b < i {
                    assert(kt[a] == ks[a]);
                    assert(kt[b] == ks[b]);
                } else {
                    assert(kt[a] == ks[a - 1]);
                    assert(kt[b] == ks[b - 1]);
                }
            }
            assert(inserted_entry(s, ch, font_name@, t));
        }
        self.fallen_back = entries;
    }

    /// Note that no bundled font could draw `ch` (braille is ignored).
    pub fn record_unresolved(&mut self, ch: char)
        ensures
            final(self).primary() == old(self).primary(),
            final(self).fallen() == old(self).fallen(),
            unresolved_step(old(self).unresolved(), ch, final(self).unresolved()),
    {
        proof {
            use_type_invariant(&*self);
        }
        let c: u32 = ch as u32;
        if c >= 0x2800 && c <= 0x28ff {
            return;
        }
        let ghost s = old(self).unresolved();
        let mut i: usize = 0;
        while i < self.unresolved.len() && self.unresolved[i] < ch
            invariant
                0 <= i <= self.unresolved@.len(),
                s == self.unresolved@,
                chars_increasing(s),
                forall|j: int| 0 <= j < i ==> (#[trigger] s[j]) < ch,
            decreases self.unresolved@.len() - i,
        {
            i += 1;
        }
        if i < self.unresolved.len() && self.unresolved[i] == ch {
            return;
        }
        proof {
            if s.contains(ch) {
                let k = choose|k: int| 0 <= k < s.len() && s[k] == ch;
                assert(k >= i);
            }
        }
        let mut chars: Vec<char> = Vec::new();
        std::mem::swap(&mut chars, &mut self.unresolved);
        chars.insert(i, ch);
        proof {
            let t = chars@;
            assert(t =~= s.insert(i as int, ch));
            assert forall|a: int, b: int| 0 <= a < b < t.len() implies t[a] < 
            t[b] by {
                if a < i && b == i {
                } else if a == i && b > i {
                    if b - 1 > i {
                        assert(s[i as int] < s[b - 1]);
                    }
                } else if a < i && b > i {
                } else if b < i {
                } else {
                }
            }
            assert(inserted_char(s, ch, t));
        }
        self.unresolved = chars;
    }

    /// Whether nothing was recorded.
    pub fn is_empty(&self) -> (r: bool)
        ensures
            r == (self.fallen().len() == 0 && self.unresolved().len() == 0),
    {
        self.fallen_back.len() == 0 && self.unresolved.len() == 0
    }

    /// Human-readable lines for the report of demo `demo_name`: the characters
    /// drawn with a fallback font (naming the primary font and the fallback
    /// fonts used), then the characters no font could draw.
    pub fn format(&self, demo_name: &str) -> (lines: Vec<String>)
        ensures
            exists|fl: Seq<Seq<char>>|
                is_font_list(fl, self.fallen()) && lines@.map_values(|l: String| l@) == report_lines(
                    demo_name@,
                    self.primary(),
                    self.fallen(),
                    self.unresolved(),
                    fl,
                ),
    {
        let mut lines: Vec<String> = Vec::new();
        let fonts = self.font_list();
        let ghost fl = fonts@.map_values(|f: &str| f@);
        if self.fallen_back.len() > 0 {
            let mut line = String::new();
            push_str(&mut line, demo_name);
            push_str(&mut line, ": ");
            let count = decimal_string(self.fallen_back.len() as u64);
            push_str(&mut line, count.as_str());
            push_str(&mut line, " character");
            if self.fallen_back.len() != 1 {
                push_str(&mut line, "s");
            }
            push_str(&mut line, " not in ");
            if self.primary_font_name.as_str().unicode_len() == 0 {
                push_str(&mut line, "primary font");
            } else {
                push_str(&mut line, self.primary_font_name.as_str());
            }
            push_str(&mut line, ", drawn with ");
            let joined = join_strs(&fonts, ", ");
            push_str(&mut line, joined.as_str());
            push_str(&mut line, ": ");
            let mut k: usize = 0;
            while k < self.fallen_back.len()
                invariant
                    0 <= k <= self.fallen_back@.len(),
                    line@ == demo_name@ + ": "@ + decimal(self.fallen().len()) + " character"@
                        + plural_suffix(self.fallen().len()) + " not in "@ + (if self.primary().len()
                        == 0 {
                        "primary font"@
                    } else {
                        self.primary()
                    }) + ", drawn with "@ + join(fl, ", "@) + ": "@ + keys_of(
                        self.fallen(),
                    ).take(k as int),
                decreases self.fallen_back@.len() - k,
            {
                push_char(&mut line, self.fallen_back[k].0);
                assert(keys_of(self.fallen()).take(k + 1) =~= keys_of(self.fallen()).take(
                    k as int,
                ).push(self.fallen_back@[k as int].0));
                k += 1;
            }
            assert(keys_of(self.fallen()).take(k as int) =~= keys_of(self.fallen()));
            assert(line@ == fallback_line(demo_name@, self.primary(), self.fallen(), fl));
            lines.push(line);
        }
        if self.unresolved.len() > 0 {
            let mut line = String::new();
            push_str(&mut line, demo_name);
            push_str(&mut line, ": ");
            let count = decimal_string(self.unresolved.len() as u64);
            push_str(&mut line, count.as_str());
            push_str(&mut line, " character");
            if self.unresolved.len() != 1 {
                push_str(&mut line, "s");
            }
            push_str(&mut line, " no bundled font can draw, rendered blank: ");
            let mut k: usize = 0;
            while k < self.unresolved.len()
                invariant
                    0 <= k <= self.unresolved@.len(),
                    line@ == demo_name@ + ": "@ + decimal(self.unresolved().len()) + " character"@
                        + plural_suffix(self.unresolved().len())
                        + " no bundled font can draw, rendered blank: "@ + self.unresolved().take(
                        k as int,
                    ),
                decreases self.unresolved@.len() - k,
            {
                push_char(&mut line, self.unresolved[k]);
                assert(self.unresolved().take(k + 1) =~= self.unresolved().take(k as int).push(
                    self.unresolved@[k as int],
                ));
                k += 1;
            }
            assert(self.unresolved().take(k as int) =~= self.unresolved());
            lines.push(line);
        }
        assert(lines@.map_values(|l: String| l@) =~= report_lines(
            demo_name@,
            self.primary(),
            self.fallen(),
            self.unresolved(),
            fl,
        ));
        lines
    }

    /// The distinct fallback font names, in increasing order.
    fn font_list(&self) -> (fonts: Vec<&'static str>)
        ensures
            is_font_list(fonts@.map_values(|f: &str| f@), self.fallen()),
    {
        let mut fonts: Vec<&'static str> = Vec::new();
        let ghost vals = values_of(self.fallen());
        let mut k: usize = 0;
        while k < self.fallen_back.len()
            invariant
                0 <= k <= self.fallen_back@.len(),
                vals == values_of(self.fallen()),
                vals.len() == self.fallen_back@.len(),
                strs_increasing(fonts@.map_values(|f: &str| f@)),
                fonts@.map_values(|f: &str| f@).to_set() == vals.take(k as int).to_set(),
            decreases self.fallen_back@.len() - k,
        {
            let name: &'static str = self.fallen_back[k].1;
            let ghost before = fonts@.map_values(|f: &str| f@);
            insert_font(&mut fonts, name);
            proof {
                assert(vals[k as int] == name@);
                assert(vals.take(k + 1) =~= vals.take(k as int).push(name@));
                broadcast use vstd::seq_lib::group_seq_properties;
                assert(vals.take(k + 1).to_set() =~= vals.take(k as int).to_set().insert(name@));
            }
            k += 1;
        }
        assert(vals.take(k as int) =~= vals);
        fonts
    }
}

/// Whether `a` sorts strictly before `b`.
fn str_lt(a: &str, b: &str) -> (r: bool)
    ensures
        r == lex_lt(a@, b@),
{
    let av = chars_of(a);
    let bv = chars_of(b);
    let mut i: usize = 0;
    assert(a@.skip(0) =~= a@);
    assert(b@.skip(0) =~= b@);
    while i < av.len() && i < bv.len() && av[i] == bv[i]
        invariant
            0 <= i <= av@.len(),
            i <= bv@.len(),
            av@ == a@,
            bv@ == b@,
            lex_lt(a@, b@) == lex_lt(a@.skip(i as int), b@.skip(i as int)),
        decreases av@.len() - i,
    {
        proof {
            let x = a@.skip(i as int);
            let y = b@.skip(i as int);
            assert(x.drop_first() =~= a@.skip(i + 1));
            assert(y.drop_first() =~= b@.skip(i + 1));
        }
        i += 1;
    }
    if i == av.len() {
        i < bv.len()
    } else if i == bv.len() {
        false
    } else {
        av[i] < bv[i]
    }
}

/// Insert `name` into the increasing list `fonts` unless it is already there.
fn insert_font(fonts: &mut Vec<&'static str>, name: &'static str)
    requires
        strs_increasing(old(fonts)@.map_values(|f: &str| f@)),
    ensures
        strs_increasing(final(fonts)@.map_values(|f: &str| f@)),
        final(fonts)@.map_values(|f: &str| f@).to_set() == old(fonts)@.map_values(
            |f: &str| f@,
        ).to_set().insert(name@),
{
    let ghost s = fonts@.map_values(|f: &str| f@);
    let mut i: usize = 0;
    while i < fonts.len() && str_lt(fonts[i], name)
        invariant
            0 <= i <= fonts@.len(),
            s == fonts@.map_values(|f: &str| f@),
            fonts@ == old(fonts)@,
            i > 0 ==> lex_lt(s[i - 1], name@),
        decreases fonts@.len() - i,
    {
        i += 1;
    }
    if i < fonts.len() && crate::text::str_eq(fonts[i], name) {
        proof {
            broadcast use vstd::seq_lib::group_seq_properties;
            assert(s.contains(name@)) by {
                assert(s[i as int] == name@);
            }
            assert(s.to_set().insert(name@) =~= s.to_set());
        }
        return;
    }
    proof {
        if i < s.len() {
            lemma_lex_total(s[i as int], name@);
        }
    }
    fonts.insert(i, name);
    proof {
        let t = fonts@.map_values(|f: &str| f@);
        assert(t =~= s.insert(i as int, name@));
        assert forall|a: int| 0 <= a < t.len() - 1 implies lex_lt(#[trigger] t[a], t[a + 1]) by {
            if a + 1 < i {
                assert(t[a] == s[a] && t[a + 1] == s[a + 1]);
            } else if a + 1 == i {
                assert(t[a] == s[a]);
            } else if a == i {
            } else {
                assert(t[a] == s[a - 1] && t[a + 1] == s[a]);
            }
        }
        broadcast use vstd::seq_lib::group_seq_properties;
        assert forall|x: Seq<char>| t.to_set().contains(x) <==> s.to_set().insert(name@).contains(x) by {
            if t.contains(x) {
                let k = choose|k: int| 0 <= k < t.len() && t[k] == x;
                if k < i {
                    assert(s[k] == x);
                } else if k > i {
                    assert(s[k - 1] == x);
                }
            }
            if s.contains(x) {
                let k = choose|k: int| 0 <= k < s.len() && s[k] == x;
                if k < i {
                    assert(t[k] == x);
                } else {
                    assert(t[k + 1] == x);
                }
            }
            if x == name@ {
                assert(t[i as int] == x);
            }
        }
        assert(t.to_set() =~= s.to_set().insert(name@));
    }
}

/// `parts` joined with `sep`.
fn join_strs(parts: &Vec<&'static str>, sep: &str) -> (r: String)
    ensures
        r@ == join(parts@.map_values(|f: &str| f@), sep@),
{
    let ghost ps = parts@.map_values(|f: &str| f@);
    let mut r = String::new();
    let mut k: usize = 0;
    while k < parts.len()
        invariant
            0 <= k <= parts@.len(),
            ps == parts@.map_values(|f: &str| f@),
            r@ == join(ps.take(k as int), sep@),
        decreases parts@.len() - k,
    {
        if k > 0 {
            push_str(&mut r, sep);
        }
        push_str(&mut r, parts[k]);
        proof {
            let t = ps.take(k + 1);
            assert(t.drop_last() =~= ps.take(k as int));
            if k == 0 {
                assert(ps.take(0) =~= Seq::<Seq<char>>::empty());
            }
        }
        k += 1;
    }
    assert(ps.take(k as int) =~= ps);
    r
}

} // verus!
