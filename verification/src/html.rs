//! Standard base64 (with `=` padding), used to inline a recording into the
//! HTML player page.

use vstd::prelude::*;
use crate::text::push_char;

verus! {

broadcast use vstd::string::group_string_axioms;

/// The base64 digit for a sextet `v` (`A–Z`, `a–z`, `0–9`, `+`, `/`).
pub open spec fn b64_digit(v: int) -> char {
    if v < 26 {
        ('A' as int + v) as char
    } else if v < 52 {
        ('a' as int + (v - 26)) as char
    } else if v < 62 {
        ('0' as int + (v - 52)) as char
    } else if v == 62 {
        '+'
    } else {
        '/'
    }
}

/// The byte at `i` of a chunk, or 0 past its end.
pub open spec fn byte_or_zero(c: Seq<u8>, i: int) -> int {
    if i < c.len() {
        c[i] as int
    } else {
        0
    }
}

/// The four base64 characters of a chunk of one to three bytes (`=` stands for
/// the missing bytes); nothing for an empty chunk.
pub open spec fn b64_chunk(c: Seq<u8>) -> Seq<char> {
    if c.len() == 0 {
        seq![]
    } else {
        let b0 = byte_or_zero(c, 0);
        let b1 = byte_or_zero(c, 1);
        let b2 = byte_or_zero(c, 2);
        seq![
            b64_digit(b0 / 4),
            b64_digit((b0 % 4) * 16 + b1 / 16),
            if c.len() > 1 {
                b64_digit((b1 % 16) * 4 + b2 / 64)
            } else {
                '='
            },
            if c.len() > 2 {
                b64_digit(b2 % 64)
            } else {
                '='
            },
        ]
    }
}

/// The base64 encoding of `s`, three bytes at a time.
pub open spec fn b64(s: Seq<u8>) -> Seq<char>
    decreases s.len(),
{
    if s.len() <= 3 {
        b64_chunk(s)
    } else {
        b64_chunk(s.take(3)) + b64(s.skip(3))
    }
}

fn digit(v: u32) -> (c: char)
    requires
        v < 64,
    ensures
        c == b64_digit(v as int),
{
    if v < 26 {
        ((65 + v) as u8) as char
    } else if v < 52 {
        ((97 + (v - 26)) as u8) as char
    } else if v < 62 {
        ((48 + (v - 52)) as u8) as char
    } else if v == 62 {
        '+'
    } else {
        '/'
    }
}

/// Encode `input` as standard base64 with `=` padding.
pub fn base64_encode(input: &[u8]) -> (r: String)
    ensures
        r@ == b64(input@),
{
    let mut out = String::new();
    let mut i: usize = 0;
    assert(input@.skip(0) =~= input@);
    while i < input.len()
        invariant
            0 <= i <= input@.len(),
            out@ + b64(input@.skip(i as int)) == b64(input@),
        decreases input@.len() - i,
    {
        let len: usize = if input.len() - i >= 3 {
            3
        } else {
            input.len() - i
        };
        let ghost rest = input@.skip(i as int);
        let ghost chunk = rest.take(len as int);
        let c0: u32 = input[i] as u32;
        let c1: u32 = if len > 1 {
            input[i + 1] as u32
        } else {
            0
        };
        let c2: u32 = if len > 2 {
            input[i + 2] as u32
        } else {
            0
        };
        assert(c0 == byte_or_zero(chunk, 0));
        assert(c1 == byte_or_zero(chunk, 1));
        assert(c2 == byte_or_zero(chunk, 2));
        let n: u32 = (c0 << 16) | (c1 << 8) | c2;
        assert((n >> 18) & 63 == c0 / 4 && (n >> 12) & 63 == (c0 % 4) * 16 + c1 / 16 && (n >> 6) & 63
            == (c1 % 16) * 4 + c2 / 64 && n & 63 == c2 % 64) by (bit_vector)
            requires
                c0 < 256 && c1 < 256 && c2 < 256,
                n == (c0 << 16) | (c1 << 8) | c2,
        ;
        let ghost before = out@;
        push_char(&mut out, digit((n >> 18) & 63));
        push_char(&mut out, digit((n >> 12) & 63));
        if len > 1 {
            push_char(&mut out, digit((n >> 6) & 63));
        } else {
            push_char(&mut out, '=');
        }
        if len > 2 {
            push_char(&mut out, digit(n & 63));
        } else {
            push_char(&mut out, '=');
        }
        assert(out@ =~= before + b64_chunk(chunk));
        proof {
            if rest.len() > 3 {
                assert(rest.skip(3) =~= input@.skip(i + 3));
            } else {
                assert(chunk =~= rest);
                assert(input@.skip(i + len) =~= Seq::<u8>::empty());
            }
        }
        i = i + len;
    }
    assert(input@.skip(i as int) =~= Seq::<u8>::empty());
    out
}

} // verus!
