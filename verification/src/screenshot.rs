//! A page screenshot (a PNG) as canvas pixels: decoded by the `png` crate,
//! then copied into an RGBA canvas of the pane's size, cropped or padded.

use vstd::prelude::*;
use crate::error::Error;
use crate::text::push_str;
use std::io::Cursor;

verus! {

broadcast use vstd::string::group_string_axioms;

#[verifier::external_type_specification]
#[verifier::external_body]
pub struct ExPngDecodingError(png::DecodingError);

/// The first frame of a decoded PNG, as the decoder hands it out.
pub struct PngFrame {
    pub width: u32,
    pub height: u32,
    /// The PNG colour type code (0 grey, 2 RGB, 3 indexed, 4 grey + alpha,
    /// 6 RGBA).
    pub color: u8,
    /// Bits per sample.
    pub bit_depth: u8,
    /// Bytes per decoded row.
    pub line_size: usize,
    /// The decoded rows.
    pub data: Vec<u8>,
}

/// What decoding `bytes` as a PNG gives: its first frame as `(width, height,
/// colour type, bit depth, row length, bytes)`, or nothing when the decoder
/// refuses the bytes.
pub uninterp spec fn png_decoded(bytes: Seq<u8>) -> Option<(u32, u32, u8, u8, usize, Seq<u8>)>;

/// Samples per pixel of a PNG colour type.
pub open spec fn png_samples(color: u8) -> int {
    if color == 2 {
        3
    } else if color == 4 {
        2
    } else if color == 6 {
        4
    } else {
        1
    }
}

/// Decodes the first frame of a PNG: `png::Decoder::new` over the bytes,
/// `Reader::read_info`, then `Reader::next_frame` into a buffer of
/// `Reader::output_buffer_size` bytes. Claimed of it: the outcome depends on the
/// bytes alone; the buffer holds every row of the frame (`next_frame` checks
/// it, and the decoder keeps a frame inside the image); an RGB or RGBA row
/// holds at least one byte per sample (those colour types only come in 8 or
/// 16 bits).
#[verifier::external_body]
fn decode_png(bytes: &[u8]) -> (r: Result<PngFrame, png::DecodingError>)
    ensures
        match r {
            Ok(f) => {
                &&& png_decoded(bytes@) == Some(
                    (f.width, f.height, f.color, f.bit_depth, f.line_size, f.data@),
                )
                &&& f.data@.len() >= f.line_size * f.height
                &&& (f.color == 2 || f.color == 6) ==> f.line_size >= f.width * png_samples(f.color)
            },
            Err(_) => png_decoded(bytes@).is_none(),
        },
{
    let mut reader = png::Decoder::new(Cursor::new(bytes)).read_info()?;
    let mut data = vec![0u8; reader.output_buffer_size().unwrap_or(0)];
    let info = reader.next_frame(&mut data)?;
    Ok(PngFrame {
        width: info.width,
        height: info.height,
        color: info.color_type as u8,
        bit_depth: info.bit_depth as u8,
        line_size: info.line_size,
        data,
    })
}

/// The decoder's message for `e` (its `Display`); nothing is claimed of it.
#[verifier::external_body]
fn png_error_text(e: &png::DecodingError) -> (r: String) {
    format!("{e}")
}

/// The name the decoder's colour type prints as.
pub open spec fn color_name(color: u8) -> Seq<char> {
    if color == 0 {
        "Grayscale"@
    } else if color == 2 {
        "Rgb"@
    } else if color == 3 {
        "Indexed"@
    } else if color == 4 {
        "GrayscaleAlpha"@
    } else {
        "Rgba"@
    }
}

/// Byte `k` of canvas pixel `(x, y)`: the frame's pixel there (read at
/// `channels` bytes a pixel) with full alpha, or transparent black outside
/// the frame.
pub open spec fn canvas_byte(
    data: Seq<u8>,
    sw: int,
    sh: int,
    channels: int,
    x: int,
    y: int,
    k: int,
) -> u8 {
    if x < sw && y < sh {
        if k == 3 {
            255
        } else {
            data[(y * sw + x) * channels + k]
        }
    } else {
        0
    }
}

/// The `tw`×`th` RGBA canvas of a frame: its top-left part, cropped or padded.
pub open spec fn frame_canvas(data: Seq<u8>, sw: int, sh: int, channels: int, tw: int, th: int) -> Seq<u8> {
    Seq::new(
        (tw * th * 4) as nat,
        |i: int| canvas_byte(data, sw, sh, channels, (i / 4) % tw, (i / 4) / tw, i % 4),
    )
}

/// The canvas of a decoded frame, or the message it is refused with: only RGB
/// and RGBA screenshots are read.
pub open spec fn frame_rgba_spec(f: (u32, u32, u8, u8, usize, Seq<u8>), tw: int, th: int) -> Result<
    Seq<u8>,
    Seq<char>,
> {
    let (sw, sh, color, _, _, data) = f;
    if color == 2 || color == 6 {
        Ok(frame_canvas(data, sw as int, sh as int, png_samples(color), tw, th))
    } else {
        Err("unsupported screenshot format: "@ + color_name(color))
    }
}

proof fn lemma_pixel_index(x: int, y: int, k: int, sw: int, sh: int, ch: int)
    requires
        0 <= x < sw,
        0 <= y < sh,
        0 <= k < ch,
    ensures
        0 <= y * sw <= y * sw + x < sw * sh,
        0 <= (y * sw + x) * ch <= (y * sw + x) * ch + k < sw * sh * ch,
{
    assert(y * sw + x < sw * sh) by (nonlinear_arith)
        requires
            0 <= x < sw,
            0 <= y < sh,
    ;
    assert(0 <= y * sw) by (nonlinear_arith)
        requires
            0 <= y,
            0 <= sw,
    ;
    assert((y * sw + x) * ch + k < sw * sh * ch) by (nonlinear_arith)
        requires
            0 <= x < sw,
            0 <= y < sh,
            0 <= k < ch,
    ;
    assert(0 <= (y * sw + x) * ch) by (nonlinear_arith)
        requires
            0 <= x,
            0 <= y,
            0 <= sw,
            0 <= ch,
    ;
}

/// A decoded frame copied into a `tw`×`th` RGBA canvas.
pub fn frame_to_rgba(f: &PngFrame, tw: usize, th: usize) -> (r: Result<Vec<u8>, Error>)
    requires
        tw * th * 4 <= usize::MAX,
        f.data@.len() >= f.line_size * f.height,
        (f.color == 2 || f.color == 6) ==> f.line_size >= f.width * png_samples(f.color),
    ensures
        match frame_rgba_spec(
            (f.width, f.height, f.color, f.bit_depth, f.line_size, f.data@),
            tw as int,
            th as int,
        ) {
            Ok(v) => r matches Ok(out) && out@ == v,
            Err(m) => r matches Err(e) && e.export_text() == Some(m),
        },
{
    let ch: usize = if f.color == 6 {
        4
    } else if f.color == 2 {
        3
    } else {
        let mut m = String::new();
        push_str(&mut m, "unsupported screenshot format: ");
        let name = if f.color == 0 {
            "Grayscale"
        } else if f.color == 3 {
            "Indexed"
        } else if f.color == 4 {
            "GrayscaleAlpha"
        } else {
            "Rgba"
        };
        push_str(&mut m, name);
        return Err(Error::Export(m));
    };
    let sw = f.width as usize;
    let sh = f.height as usize;
    let ghost data = f.data@;
    proof {
        assert(sw * ch <= f.line_size) by (nonlinear_arith)
            requires
                f.line_size >= f.width * png_samples(f.color),
                ch == png_samples(f.color),
                sw == f.width,
        ;
        assert(sw * sh * ch <= f.data@.len()) by (nonlinear_arith)
            requires
                sw * ch <= f.line_size,
                f.data@.len() >= f.line_size * f.height,
                sh == f.height,
        ;
    }
    let total = tw * th * 4;
    let dlen = f.data.len();
    let mut out: Vec<u8> = Vec::new();
    let mut i: usize = 0;
    while i < total
        invariant
            total == tw * th * 4,
            i <= total,
            out@.len() == i,
            ch == png_samples(f.color),
            ch == 3 || ch == 4,
            sw == f.width,
            sh == f.height,
            data == f.data@,
            dlen == data.len(),
            sw * sh * ch <= data.len(),
            forall|j: int|
                0 <= j < i ==> #[trigger] out@[j] == canvas_byte(
                    data,
                    sw as int,
                    sh as int,
                    ch as int,
                    (j / 4) % (tw as int),
                    (j / 4) / (tw as int),
                    j % 4,
                ),
        decreases total - i,
    {
        proof {
            assert(tw > 0) by (nonlinear_arith)
                requires
                    i < total,
                    total == tw * th * 4,
            ;
        }
        let p = i / 4;
        let x = p % tw;
        let y = p / tw;
        let k = i % 4;
        let b: u8 = if x < sw && y < sh {
            if k == 3 {
                255
            } else {
                proof {
                    assert(k < ch);
                    lemma_pixel_index(x as int, y as int, k as int, sw as int, sh as int, ch as int);
                }
                let s = (y * sw + x) * ch + k;
                f.data[s]
            }
        } else {
            0
        };
        out.push(b);
        i += 1;
    }
    proof {
        let v = frame_canvas(data, sw as int, sh as int, ch as int, tw as int, th as int);
        assert(out@ =~= v);
    }
    Ok(out)
}

/// A page screenshot decoded and fitted to a `tw`×`th` canvas. When the
/// decoder refuses the bytes the error says `png: ` and the decoder's reason.
pub fn png_to_rgba(bytes: &[u8], tw: usize, th: usize) -> (r: Result<Vec<u8>, Error>)
    requires
        tw * th * 4 <= usize::MAX,
    ensures
        match png_decoded(bytes@) {
            None => r matches Err(e) && e.export_text() matches Some(m) && "png: "@.is_prefix_of(m),
            Some(frame) => match frame_rgba_spec(frame, tw as int, th as int) {
                Ok(v) => r matches Ok(out) && out@ == v,
                Err(m) => r matches Err(e) && e.export_text() == Some(m),
            },
        },
{
    match decode_png(bytes) {
        Ok(f) => frame_to_rgba(&f, tw, th),
        Err(e) => {
            let mut m = String::new();
            push_str(&mut m, "png: ");
            let why = png_error_text(&e);
            push_str(&mut m, why.as_str());
            proof {
                reveal_strlit("png: ");
                assert(m@.subrange(0, 5) =~= "png: "@);
            }
            Err(Error::Export(m))
        },
    }
}

} // verus!
