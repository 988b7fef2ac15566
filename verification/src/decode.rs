//! Decoding PTY output to text across read boundaries: each well-formed UTF-8
//! sequence becomes its character, each ill-formed one becomes U+FFFD (one per
//! maximal ill-formed subpart, as `str::from_utf8` reports them), and a
//! sequence cut short by the end of a read is held back for the next one.

use vstd::prelude::*;
use crate::capture::char_from_u32;
use crate::text::push_char;

verus! {

broadcast use vstd::string::group_string_axioms;

pub open spec fn is_cont(b: u8) -> bool {
    0x80 <= b <= 0xbf
}

/// The length of the sequence a lead byte starts (0 for a byte that starts
/// none: a continuation byte, `C0`, `C1`, or `F5`..`FF`).
pub open spec fn seq_width(b: u8) -> nat {
    if b < 0x80 {
        1
    } else if 0xc2 <= b <= 0xdf {
        2
    } else if 0xe0 <= b <= 0xef {
        3
    } else if 0xf0 <= b <= 0xf4 {
        4
    } else {
        0
    }
}

/// Whether `b1` may follow the lead byte `b0` (the table of well-formed UTF-8
/// sequences: no overlong forms, no surrogates, nothing past U+10FFFF).
pub open spec fn second_ok(b0: u8, b1: u8) -> bool {
    if b0 == 0xe0 {
        0xa0 <= b1 <= 0xbf
    } else if b0 == 0xed {
        0x80 <= b1 <= 0x9f
    } else if b0 == 0xf0 {
        0x90 <= b1 <= 0xbf
    } else if b0 == 0xf4 {
        0x80 <= b1 <= 0x8f
    } else {
        is_cont(b1)
    }
}

/// What starts a run of bytes.
pub enum Head {
    /// A well-formed sequence of `len` bytes encoding the scalar `value`.
    Char { value: u32, len: nat },
    /// An ill-formed subpart of `len` bytes.
    Bad { len: nat },
    /// The start of a well-formed sequence cut short by the end of the bytes.
    Short,
}

pub open spec fn value2(b0: u8, b1: u8) -> u32 {
    ((b0 % 32) as int * 64 + (b1 % 64) as int) as u32
}

pub open spec fn value3(b0: u8, b1: u8, b2: u8) -> u32 {
    ((b0 % 16) as int * 4096 + (b1 % 64) as int * 64 + (b2 % 64) as int) as u32
}

pub open spec fn value4(b0: u8, b1: u8, b2: u8, b3: u8) -> u32 {
    ((b0 % 8) as int * 262144 + (b1 % 64) as int * 4096 + (b2 % 64) as int * 64 + (b3
        % 64) as int) as u32
}

/// Classify the first sequence of a non-empty run of bytes.
#[verifier::opaque]
pub open spec fn head(s: Seq<u8>) -> Head {
    let b0 = s[0];
    let w = seq_width(b0);
    if w == 1 {
        Head::Char { value: b0 as u32, len: 1 }
    } else if w == 0 {
        Head::Bad { len: 1 }
    } else if s.len() < 2 {
        Head::Short
    } else if !second_ok(b0, s[1]) {
        Head::Bad { len: 1 }
    } else if w == 2 {
        Head::Char { value: value2(b0, s[1]), len: 2 }
    } else if s.len() < 3 {
        Head::Short
    } else if !is_cont(s[2]) {
        Head::Bad { len: 2 }
    } else if w == 3 {
        Head::Char { value: value3(b0, s[1], s[2]), len: 3 }
    } else if s.len() < 4 {
        Head::Short
    } else if !is_cont(s[3]) {
        Head::Bad { len: 3 }
    } else {
        Head::Char { value: value4(b0, s[1], s[2], s[3]), len: 4 }
    }
}

/// Decode `s`: the text of its complete sequences (U+FFFD for each ill-formed
/// subpart), and the incomplete sequence it ends with, if any.
#[verifier::opaque]
pub open spec fn stream(s: Seq<u8>) -> (Seq<char>, Seq<u8>)
    decreases s.len(),
{
    if s.len() == 0 {
        (seq![], seq![])
    } else {
        match head(s) {
            Head::Char { value, len } => if 1 <= len <= s.len() {
                let (o, p) = stream(s.skip(len as int));
                (seq![value as char] + o, p)
            } else {
                (seq![], s)
            },
            Head::Bad { len } => if 1 <= len <= s.len() {
                let (o, p) = stream(s.skip(len as int));
                (seq!['\u{FFFD}'] + o, p)
            } else {
                (seq![], s)
            },
            Head::Short => (seq![], s),
        }
    }
}

/// One step of decoding: a well-formed sequence (which always encodes a
/// Unicode scalar) or an ill-formed subpart is consumed; a cut-short sequence
/// ends the text and is held back.
proof fn lemma_stream_step(s: Seq<u8>)
    requires
        s.len() > 0,
    ensures
        match head(s) {
            Head::Char { value, len } => {
                &&& vstd::utf8::is_scalar(value)
                &&& 1 <= len <= s.len()
                &&& stream(s) == (seq![value as char] + stream(s.skip(len as int)).0, stream(
                    s.skip(len as int),
                ).1)
            },
            Head::Bad { len } => {
                &&& 1 <= len <= s.len()
                &&& stream(s) == (seq!['\u{FFFD}'] + stream(s.skip(len as int)).0, stream(
                    s.skip(len as int),
                ).1)
            },
            Head::Short => stream(s) == (Seq::<char>::empty(), s),
        },
{
    reveal(stream);
    reveal(head);
}

proof fn lemma_stream_empty()
    ensures
        stream(Seq::<u8>::empty()) == (Seq::<char>::empty(), Seq::<u8>::empty()),
{
    reveal(stream);
}

/// A decision about the first sequence that the bytes at hand allow is not
/// changed by more bytes arriving.
proof fn lemma_head_extend(x: Seq<u8>, y: Seq<u8>)
    requires
        x.len() > 0,
        !(head(x) is Short),
    ensures
        head(x + y) == head(x),
{
    reveal(head);
    let z = x + y;
    assert(z[0] == x[0]);
    if x.len() >= 2 {
        assert(z[1] == x[1]);
    }
    if x.len() >= 3 {
        assert(z[2] == x[2]);
    }
    if x.len() >= 4 {
        assert(z[3] == x[3]);
    }
}

/// Decoding does not depend on how the byte stream is cut into reads:
/// decoding `x` and then the held-back bytes followed by `y` yields the same
/// text, and leaves the same bytes held back, as decoding `x + y` at once.
pub proof fn lemma_stream_split(x: Seq<u8>, y: Seq<u8>)
    ensures
        stream(x + y) == (stream(x).0 + stream(stream(x).1 + y).0, stream(stream(x).1 + y).1),
    decreases x.len(),
{
    if x.len() == 0 {
        lemma_stream_empty();
        assert(x =~= Seq::<u8>::empty());
        assert(x + y =~= y);
        assert(stream(x).1 + y =~= y);
        assert(stream(x).0 + stream(y).0 =~= stream(y).0);
    } else {
        lemma_stream_step(x);
        match head(x) {
            Head::Short => {
                assert(stream(x).0 + stream(stream(x).1 + y).0 =~= stream(x + y).0);
            },
            Head::Char { value, len } => {
                lemma_head_extend(x, y);
                lemma_stream_step(x + y);
                assert((x + y).skip(len as int) =~= x.skip(len as int) + y);
                lemma_stream_split(x.skip(len as int), y);
                let t = stream(stream(x.skip(len as int)).1 + y).0;
                assert(seq![value as char] + (stream(x.skip(len as int)).0 + t) =~= (seq![value as char]
                    + stream(x.skip(len as int)).0) + t);
            },
            Head::Bad { len } => {
                lemma_head_extend(x, y);
                lemma_stream_step(x + y);
                assert((x + y).skip(len as int) =~= x.skip(len as int) + y);
                lemma_stream_split(x.skip(len as int), y);
                let t = stream(stream(x.skip(len as int)).1 + y).0;
                assert(seq!['\u{FFFD}'] + (stream(x.skip(len as int)).0 + t) =~= (seq!['\u{FFFD}']
                    + stream(x.skip(len as int)).0) + t);
            },
        }
    }
}

/// The reads `chunks` one after another.
pub open spec fn joined(chunks: Seq<Seq<u8>>) -> Seq<u8>
    decreases chunks.len(),
{
    if chunks.len() == 0 {
        Seq::empty()
    } else {
        joined(chunks.drop_last()) + chunks.last()
    }
}

/// What successive calls of `decode_streaming` give for the reads `chunks`,
/// starting from `pending`: the texts they return, one after another, and the
/// bytes held back at the end.
pub open spec fn decode_reads(pending: Seq<u8>, chunks: Seq<Seq<u8>>) -> (Seq<char>, Seq<u8>)
    decreases chunks.len(),
{
    if chunks.len() == 0 {
        (Seq::empty(), pending)
    } else {
        let (text, held) = decode_reads(pending, chunks.drop_last());
        let (more, rest) = stream(held + chunks.last());
        (text + more, rest)
    }
}

/// However a byte stream is cut into reads, decoding read by read (starting
/// with nothing held back) returns, all told, the text of the whole stream
/// and holds back the same incomplete sequence (at most 3 bytes) at the end:
/// a glyph split across reads comes out whole.
pub proof fn lemma_decode_reads(chunks: Seq<Seq<u8>>)
    ensures
        decode_reads(Seq::empty(), chunks) == stream(joined(chunks)),
        decode_reads(Seq::empty(), chunks).1.len() <= 3,
    decreases chunks.len(),
{
    if chunks.len() == 0 {
        lemma_stream_empty();
        assert(joined(chunks) =~= Seq::<u8>::empty());
    } else {
        let prev = chunks.drop_last();
        lemma_decode_reads(prev);
        lemma_stream_split(joined(prev), chunks.last());
    }
    lemma_held_back_short(joined(chunks));
}

/// What `String::from_utf8_lossy` makes of `s`: its decoded text, and one
/// U+FFFD for a sequence cut short at the end.
pub open spec fn lossy(s: Seq<u8>) -> Seq<char> {
    stream(s).0 + if stream(s).1.len() > 0 {
        seq!['\u{FFFD}']
    } else {
        Seq::<char>::empty()
    }
}

/// What decoding holds back decodes to nothing and is held back whole again.
proof fn lemma_held_back_holds(s: Seq<u8>)
    ensures
        stream(stream(s).1) == (Seq::<char>::empty(), stream(s).1),
    decreases s.len(),
{
    if s.len() == 0 {
        lemma_stream_empty();
        assert(s =~= Seq::<u8>::empty());
    } else {
        lemma_stream_step(s);
        match head(s) {
            Head::Char { len, .. } => {
                lemma_held_back_holds(s.skip(len as int));
            },
            Head::Bad { len } => {
                lemma_held_back_holds(s.skip(len as int));
            },
            Head::Short => {
                lemma_stream_step(s);
            },
        }
    }
}

/// Decoding read by read and then reading what is still held back lossily
/// gives what reading the whole stream lossily gives (a split glyph comes out
/// whole; a stream cut short ends in one U+FFFD either way).
pub proof fn lemma_decode_reads_lossy(chunks: Seq<Seq<u8>>)
    ensures
        decode_reads(Seq::empty(), chunks).0 + lossy(decode_reads(Seq::empty(), chunks).1) == lossy(
            joined(chunks),
        ),
{
    lemma_decode_reads(chunks);
    let j = joined(chunks);
    lemma_held_back_holds(j);
    assert(stream(j).0 + lossy(stream(j).1) =~= lossy(j));
}

/// What decoding holds back is a cut-short sequence: at most 3 bytes.
proof fn lemma_held_back_short(s: Seq<u8>)
    ensures
        stream(s).1.len() <= 3,
    decreases s.len(),
{
    if s.len() == 0 {
        lemma_stream_empty();
        assert(s =~= Seq::<u8>::empty());
    } else {
        lemma_stream_step(s);
        match head(s) {
            Head::Char { len, .. } => {
                lemma_held_back_short(s.skip(len as int));
            },
            Head::Bad { len } => {
                lemma_held_back_short(s.skip(len as int));
            },
            Head::Short => {
                reveal(head);
                assert(s.len() <= 3) by {
                    if s.len() >= 4 {
                        assert(!(head(s) is Short));
                    }
                }
            },
        }
    }
}

/// The head of `buf[i..]`: `(kind, len, value)` with kind 0 a character, 1 an
/// ill-formed subpart, 2 a cut-short sequence.
fn head_at(buf: &Vec<u8>, i: usize) -> (r: (u8, usize, u32))
    requires
        i < buf@.len(),
    ensures
        match head(buf@.skip(i as int)) {
            Head::Char { value, len } => r.0 == 0 && r.1 == len && r.2 == value,
            Head::Bad { len } => r.0 == 1 && r.1 == len,
            Head::Short => r.0 == 2,
        },
{
    reveal(head);
    let ghost s = buf@.skip(i as int);
    let n: usize = buf.len() - i;
    let b0 = buf[i];
    assert(s[0] == b0);
    if b0 < 0x80 {
        return (0, 1, b0 as u32);
    }
    let w: usize = if 0xc2 <= b0 && b0 <= 0xdf {
        2
    } else if 0xe0 <= b0 && b0 <= 0xef {
        3
    } else if 0xf0 <= b0 && b0 <= 0xf4 {
        4
    } else {
        0
    };
    if w == 0 {
        return (1, 1, 0);
    }
    if n < 2 {
        return (2, 0, 0);
    }
    let b1 = buf[i + 1];
    assert(s[1] == b1);
    let ok1 = if b0 == 0xe0 {
        0xa0 <= b1 && b1 <= 0xbf
    } else if b0 == 0xed {
        0x80 <= b1 && b1 <= 0x9f
    } else if b0 == 0xf0 {
        0x90 <= b1 && b1 <= 0xbf
    } else if b0 == 0xf4 {
        0x80 <= b1 && b1 <= 0x8f
    } else {
        0x80 <= b1 && b1 <= 0xbf
    };
    if !ok1 {
        return (1, 1, 0);
    }
    if w == 2 {
        return (0, 2, (b0 % 32) as u32 * 64 + (b1 % 64) as u32);
    }
    if n < 3 {
        return (2, 0, 0);
    }
    let b2 = buf[i + 2];
    assert(s[2] == b2);
    if !(0x80 <= b2 && b2 <= 0xbf) {
        return (1, 2, 0);
    }
    if w == 3 {
        return (0, 3, (b0 % 16) as u32 * 4096 + (b1 % 64) as u32 * 64 + (b2 % 64) as u32);
    }
    if n < 4 {
        return (2, 0, 0);
    }
    let b3 = buf[i + 3];
    assert(s[3] == b3);
    if !(0x80 <= b3 && b3 <= 0xbf) {
        return (1, 3, 0);
    }
    (0, 4, (b0 % 8) as u32 * 262144 + (b1 % 64) as u32 * 4096 + (b2 % 64) as u32 * 64 + (b3
        % 64) as u32)
}

/// Decode PTY bytes to text across read boundaries. `pending` holds bytes left
/// over from a previous read that ended mid-sequence; the new `bytes` are
/// appended, everything decodable is returned, and an incomplete trailing
/// sequence is kept in `pending` for the next call. Ill-formed bytes become
/// U+FFFD, so a bad byte can't stall the stream.
pub fn decode_streaming(pending: &mut Vec<u8>, bytes: &[u8]) -> (r: String)
    ensures
        (r@, final(pending)@) == stream(old(pending)@ + bytes@),
{
    let mut buf: Vec<u8> = Vec::new();
    std::mem::swap(&mut buf, pending);
    let mut k: usize = 0;
    while k < bytes.len()
        invariant
            0 <= k <= bytes@.len(),
            buf@ == old(pending)@ + bytes@.take(k as int),
        decreases bytes@.len() - k,
    {
        buf.push(bytes[k]);
        assert(old(pending)@ + bytes@.take(k + 1) =~= (old(pending)@ + bytes@.take(k as int)).push(
            bytes@[k as int],
        ));
        k += 1;
    }
    assert(bytes@.take(k as int) =~= bytes@);
    let ghost all = buf@;
    let mut out = String::new();
    let mut i: usize = 0;
    let mut stop = false;
    assert(all.skip(0) =~= all);
    assert(out@ + stream(all).0 =~= stream(all).0);
    while i < buf.len() && !stop
        invariant
            0 <= i <= buf@.len(),
            buf@ == all,
            (out@ + stream(all.skip(i as int)).0, stream(all.skip(i as int)).1) == stream(all),
            stop ==> i < buf@.len() && head(all.skip(i as int)) is Short,
        decreases buf@.len() - i, if stop { 0int } else { 1int },
    {
        let ghost s = all.skip(i as int);
        let ghost out0 = out@;
        let (kind, len, value) = head_at(&buf, i);
        if kind == 2 {
            proof {
                lemma_stream_step(s);
            }
            stop = true;
        } else {
            proof {
                lemma_stream_step(s);
                assert(s.skip(len as int) =~= all.skip(i + len));
            }
            if kind == 0 {
                let c = match char_from_u32(value) {
                    Some(c) => c,
                    None => {
                        assert(false);
                        ' '
                    },
                };
                push_char(&mut out, c);
                proof {
                    vstd::utf8::char_u32_cast(c, value);
                    assert(c == value as char);
                    let (o, p) = stream(all.skip(i + len));
                    assert(out@ + o =~= out0 + (seq![value as char] + o));
                }
            } else {
                push_char(&mut out, '\u{FFFD}');
                proof {
                    let (o, p) = stream(all.skip(i + len));
                    assert(out@ + o =~= out0 + (seq!['\u{FFFD}'] + o));
                }
            }
            i = i + len;
        }
    }
    let mut rest: Vec<u8> = Vec::new();
    let mut j: usize = i;
    while j < buf.len()
        invariant
            i <= j <= buf@.len(),
            rest@ == buf@.subrange(i as int, j as int),
        decreases buf@.len() - j,
    {
        rest.push(buf[j]);
        assert(buf@.subrange(i as int, j + 1) =~= buf@.subrange(i as int, j as int).push(buf@[j as int]));
        j += 1;
    }
    proof {
        assert(rest@ =~= all.skip(i as int));
        if i == buf@.len() {
            assert(all.skip(i as int) =~= Seq::<u8>::empty());
            lemma_stream_empty();
        } else {
            lemma_stream_step(all.skip(i as int));
        }
    }
    *pending = rest;
    out
}

} // verus!
