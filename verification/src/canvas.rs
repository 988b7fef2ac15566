//! Export canvas geometry: aspect ratio × quality tiers, named resolution
//! presets, explicit `WxH` sizes, and the permitted frame rates.

use vstd::prelude::*;
use vstd::string::StringExecFns;
use crate::cli::ExportArgs;
use crate::error::Error;
use crate::model::{opt_str, Layout, Pane, Score};
use crate::text::{
    chars_of, decimal, decimal_string, lower, lower_vec, parse_u32, parse_u32_spec, seq_eq,
    slice_of, trim, trim_bounds,
};

verus! {

broadcast use vstd::string::group_string_axioms;

/// Default frame rate of an export.
pub const DEFAULT_FPS: u32 = 15;

/// `a:b` aspect ratios offered at capture and export.
pub open spec fn aspect_spec(av: Seq<char>) -> Option<(u32, u32)> {
    if av == "16:9"@ {
        Some((16, 9))
    } else if av == "9:16"@ {
        Some((9, 16))
    } else if av == "4:3"@ {
        Some((4, 3))
    } else if av == "1:1"@ {
        Some((1, 1))
    } else {
        None
    }
}

/// Quality tiers: the short side of the canvas, in pixels.
pub open spec fn quality_spec(qv: Seq<char>) -> Option<u32> {
    if qv == "fullhd"@ {
        Some(1080)
    } else if qv == "hd"@ {
        Some(720)
    } else {
        None
    }
}

/// The canvas for an aspect ratio and a quality (both matched after trimming,
/// case-insensitively): the short side is the quality base, the long side
/// scales by the ratio.
pub open spec fn canvas_spec(aspect: Seq<char>, quality: Seq<char>) -> Option<(u32, u32)> {
    match (aspect_spec(lower(trim(aspect))), quality_spec(lower(trim(quality)))) {
        (Some((a, b)), Some(base)) => {
            let short = if a < b {
                a
            } else {
                b
            };
            Some(((a * base / (short as int)) as u32, (b * base / (short as int)) as u32))
        },
        _ => None,
    }
}

pub open spec fn invalid_aspect_msg(aspect: Seq<char>) -> Seq<char> {
    "invalid aspect '"@ + aspect + "' — try 16:9, 9:16, 4:3, or 1:1"@
}

pub open spec fn invalid_quality_msg(quality: Seq<char>) -> Seq<char> {
    "invalid quality '"@ + quality + "' — try fullhd or hd"@
}

/// `v` trimmed and lower-cased, as a new vector.
pub fn normalized(s: &str) -> (r: Vec<char>)
    ensures
        r@ == lower(trim(s@)),
{
    let v = chars_of(s);
    let (a, b) = trim_bounds(&v);
    let t = slice_of(&v, a, b);
    lower_vec(&t)
}

fn eq_lit(v: &Vec<char>, lit: &str) -> (r: bool)
    ensures
        r == (v@ == lit@),
{
    let l = chars_of(lit);
    seq_eq(v, &l)
}

fn aspect_of(av: &Vec<char>) -> (r: Option<(u32, u32)>)
    ensures
        r == aspect_spec(av@),
{
    if eq_lit(av, "16:9") {
        Some((16, 9))
    } else if eq_lit(av, "9:16") {
        Some((9, 16))
    } else if eq_lit(av, "4:3") {
        Some((4, 3))
    } else if eq_lit(av, "1:1") {
        Some((1, 1))
    } else {
        None
    }
}

fn quality_of(qv: &Vec<char>) -> (r: Option<u32>)
    ensures
        r == quality_spec(qv@),
{
    if eq_lit(qv, "fullhd") {
        Some(1080)
    } else if eq_lit(qv, "hd") {
        Some(720)
    } else {
        None
    }
}

fn quoted_msg(head: &str, value: &str, tail: &str) -> (r: String)
    ensures
        r@ == head@ + value@ + tail@,
{
    let mut m = head.to_string();
    m.append(value);
    m.append(tail);
    m
}

/// Compute the canvas `(width, height)` for an aspect ratio + quality.
pub fn canvas_from_aspect_quality(aspect: &str, quality: &str) -> (r: Result<(u32, u32), Error>)
    ensures
        match r {
            Ok(wh) => canvas_spec(aspect@, quality@) == Some(wh),
            Err(e) => canvas_spec(aspect@, quality@).is_none() && e.export_text() == Some(
                if aspect_spec(lower(trim(aspect@))).is_none() {
                    invalid_aspect_msg(aspect@)
                } else {
                    invalid_quality_msg(quality@)
                },
            ),
        },
{
    let av = normalized(aspect);
    let (a, b) = match aspect_of(&av) {
        Some(ab) => ab,
        None => {
            return Err(
                Error::Export(quoted_msg("invalid aspect '", aspect, "' — try 16:9, 9:16, 4:3, or 1:1")),
            );
        },
    };
    let qv = normalized(quality);
    let base = match quality_of(&qv) {
        Some(q) => q,
        None => {
            return Err(
                Error::Export(quoted_msg("invalid quality '", quality, "' — try fullhd or hd")),
            );
        },
    };
    let short = if a < b {
        a
    } else {
        b
    };
    Ok((a * base / short, b * base / short))
}

/// Every canvas keeps its ratio exactly and its short side is the quality base.
pub proof fn lemma_canvas_shape(aspect: Seq<char>, quality: Seq<char>)
    ensures
        canvas_spec(aspect, quality) matches Some((w, h)) ==> {
            let (a, b) = aspect_spec(lower(trim(aspect)))->Some_0;
            let base = quality_spec(lower(trim(quality)))->Some_0;
            &&& w * b == h * a
            &&& (if w < h {
                w
            } else {
                h
            }) == base
        },
{
    let av = lower(trim(aspect));
    let qv = lower(trim(quality));
    if aspect_spec(av).is_some() && quality_spec(qv).is_some() {
        let (a, b) = aspect_spec(av)->Some_0;
        let base = quality_spec(qv)->Some_0;
        assert(base == 1080 || base == 720);
        assert(16int * 1080 / 9 == 1920 && 9int * 1080 / 9 == 1080);
        assert(16int * 720 / 9 == 1280 && 9int * 720 / 9 == 720);
        assert(4int * 1080 / 3 == 1440 && 3int * 1080 / 3 == 1080);
        assert(4int * 720 / 3 == 960 && 3int * 720 / 3 == 720);
        assert(1int * 1080 / 1 == 1080 && 1int * 720 / 1 == 720);
    }
}

/// A resolution preset name (`landscape`, `portrait`, `square`, `standard`).
pub open spec fn preset_spec(v: Seq<char>) -> Option<(u32, u32)> {
    if v == "landscape"@ {
        Some((1920, 1080))
    } else if v == "portrait"@ {
        Some((1080, 1920))
    } else if v == "square"@ {
        Some((1080, 1080))
    } else if v == "standard"@ {
        Some((1280, 720))
    } else {
        None
    }
}

fn preset_of(v: &Vec<char>) -> (r: Option<(u32, u32)>)
    ensures
        r == preset_spec(v@),
{
    if eq_lit(v, "landscape") {
        Some((1920, 1080))
    } else if eq_lit(v, "portrait") {
        Some((1080, 1920))
    } else if eq_lit(v, "square") {
        Some((1080, 1080))
    } else if eq_lit(v, "standard") {
        Some((1280, 720))
    } else {
        None
    }
}

/// Separators of a `WxH` pair (after lower-casing).
pub open spec fn is_dim_sep(c: char) -> bool {
    c == 'x' || c == '×'
}

/// Index of the first separator at or after `i`, or -1.
pub open spec fn first_sep(v: Seq<char>, i: int) -> int
    decreases v.len() - i,
{
    if i < 0 || i >= v.len() {
        -1
    } else if is_dim_sep(v[i]) {
        i
    } else {
        first_sep(v, i + 1)
    }
}

/// A `WxH` pair: split at the first separator, both sides trimmed and parsed
/// as positive `u32`s.
pub open spec fn dims_spec(v: Seq<char>) -> Option<(u32, u32)> {
    let k = first_sep(v, 0);
    if k < 0 {
        None
    } else {
        match (parse_u32_spec(trim(v.take(k))), parse_u32_spec(trim(v.skip(k + 1)))) {
            (Some(w), Some(h)) => if w > 0 && h > 0 {
                Some((w, h))
            } else {
                None
            },
            _ => None,
        }
    }
}

fn parse_trimmed_u32(v: &Vec<char>, a: usize, b: usize) -> (r: Option<u32>)
    requires
        a <= b <= v.len(),
    ensures
        r == parse_u32_spec(trim(v@.subrange(a as int, b as int))),
{
    let part = slice_of(v, a, b);
    let (c, d) = trim_bounds(&part);
    parse_u32(&part, c, d)
}

fn dims_of(v: &Vec<char>) -> (r: Option<(u32, u32)>)
    ensures
        r == dims_spec(v@),
{
    let mut k: usize = 0;
    while k < v.len() && !(v[k] == 'x' || v[k] == '×')
        invariant
            k <= v.len(),
            first_sep(v@, k as int) == first_sep(v@, 0),
        decreases v.len() - k,
    {
        k += 1;
    }
    if k == v.len() {
        return None;
    }
    assert(first_sep(v@, 0) == k);
    let w = parse_trimmed_u32(v, 0, k);
    let h = parse_trimmed_u32(v, k + 1, v.len());
    assert(v@.subrange(0, k as int) =~= v@.take(k as int));
    assert(v@.subrange(k + 1, v.len() as int) =~= v@.skip(k + 1));
    match (w, h) {
        (Some(w), Some(h)) => if w > 0 && h > 0 {
            Some((w, h))
        } else {
            None
        },
        _ => None,
    }
}

/// `--resolution` at capture: `auto` (no fixed canvas), a preset, or `WxH`.
pub open spec fn resolution_spec(s: Seq<char>) -> Option<Option<(u32, u32)>> {
    let v = lower(trim(s));
    if v == "auto"@ {
        Some(None)
    } else if preset_spec(v).is_some() {
        Some(preset_spec(v))
    } else if dims_spec(v).is_some() {
        Some(dims_spec(v))
    } else {
        None
    }
}

/// Parse a `--resolution` value: a legacy preset name, `WxH`, or `auto` (→
/// `None`, meaning the canvas derives from the terminal size).
pub fn parse_resolution(s: &str) -> (r: Result<Option<(u32, u32)>, Error>)
    ensures
        match r {
            Ok(x) => resolution_spec(s@) == Some(x),
            Err(e) => resolution_spec(s@).is_none() && e.export_text() == Some(
                "invalid resolution '"@ + s@
                    + "' — try a WxH pair (e.g. 1600x900) or auto; or use --aspect/--quality"@,
            ),
        },
{
    let v = normalized(s);
    if eq_lit(&v, "auto") {
        return Ok(None);
    }
    if let Some(wh) = preset_of(&v) {
        return Ok(Some(wh));
    }
    if let Some(wh) = dims_of(&v) {
        return Ok(Some(wh));
    }
    Err(
        Error::Export(
            quoted_msg(
                "invalid resolution '",
                s,
                "' — try a WxH pair (e.g. 1600x900) or auto; or use --aspect/--quality",
            ),
        ),
    )
}

/// `--resolution` at export: a preset (including `fullhd`) or `WxH`.
pub open spec fn resolution_override_spec(s: Seq<char>) -> Option<(u32, u32)> {
    let v = lower(trim(s));
    if preset_spec(v).is_some() {
        preset_spec(v)
    } else if v == "fullhd"@ {
        Some((1920, 1080))
    } else {
        dims_spec(v)
    }
}

/// Parse a `--resolution` value for export: `WxH` or a preset name.
pub fn parse_resolution_override(s: &str) -> (r: Result<(u32, u32), Error>)
    ensures
        match r {
            Ok(wh) => resolution_override_spec(s@) == Some(wh),
            Err(e) => resolution_override_spec(s@).is_none() && e.export_text() == Some(
                "invalid resolution '"@ + s@
                    + "' — try a WxH pair (e.g. 1920x1080) or a preset (landscape, portrait, square, standard, fullhd)"@,
            ),
        },
{
    let v = normalized(s);
    if let Some(wh) = preset_of(&v) {
        return Ok(wh);
    }
    if eq_lit(&v, "fullhd") {
        return Ok((1920, 1080));
    }
    if let Some(wh) = dims_of(&v) {
        return Ok(wh);
    }
    Err(
        Error::Export(
            quoted_msg(
                "invalid resolution '",
                s,
                "' — try a WxH pair (e.g. 1920x1080) or a preset (landscape, portrait, square, standard, fullhd)",
            ),
        ),
    )
}

/// The permitted export frame rates.
pub open spec fn fps_allowed(n: u32) -> bool {
    n == 15 || n == 24 || n == 30
}

/// Parse a `--fps` value: must be one of 15, 24, 30.
pub fn parse_fps(s: &str) -> (r: Result<u32, Error>)
    ensures
        match parse_u32_spec(trim(s@)) {
            None => r matches Err(e) && e.export_text() == Some(
                "invalid fps '"@ + s@ + "' — try 15, 24, or 30"@,
            ),
            Some(n) => if fps_allowed(n) {
                r == Ok::<u32, Error>(n)
            } else {
                r matches Err(e) && e.export_text() == Some(
                    "unsupported fps "@ + decimal(n as nat) + " — try 15, 24, or 30"@,
                )
            },
        },
{
    let v = chars_of(s);
    let (a, b) = trim_bounds(&v);
    let parsed = parse_u32(&v, a, b);
    match parsed {
        None => Err(Error::Export(quoted_msg("invalid fps '", s, "' — try 15, 24, or 30"))),
        Some(n) => {
            if n == 15 || n == 24 || n == 30 {
                Ok(n)
            } else {
                let num = decimal_string(n as u64);
                Err(
                    Error::Export(
                        quoted_msg("unsupported fps ", num.as_str(), " — try 15, 24, or 30"),
                    ),
                )
            }
        },
    }
}


// ---------------------------------------------------------------------------
// Export resolution
// ---------------------------------------------------------------------------

/// The canvas an export is rendered at: `--resolution`, else `--aspect` (with
/// `--quality`, by default full HD), else `--quality` at 16:9; `None` keeps the
/// capture's own size.
pub open spec fn export_resolution_spec(
    resolution: Option<Seq<char>>,
    aspect: Option<Seq<char>>,
    quality: Option<Seq<char>>,
) -> Option<Option<(u32, u32)>> {
    match resolution {
        Some(r) => match resolution_override_spec(r) {
            Some(wh) => Some(Some(wh)),
            None => None,
        },
        None => match aspect {
            Some(a) => match canvas_spec(
                a,
                match quality {
                    Some(q) => q,
                    None => "fullhd"@,
                },
            ) {
                Some(wh) => Some(Some(wh)),
                None => None,
            },
            None => match quality {
                Some(q) => match canvas_spec("16:9"@, q) {
                    Some(wh) => Some(Some(wh)),
                    None => None,
                },
                None => Some(None),
            },
        },
    }
}

/// The export canvas the flags ask for (see `export_resolution_spec`); the
/// error is that of the flag that failed to parse.
pub fn resolve_export_resolution(args: &ExportArgs, default_w: u32, default_h: u32) -> (r: Result<
    Option<(u32, u32)>,
    Error,
>)
    ensures
        match r {
            Ok(x) => export_resolution_spec(
                opt_str(args.resolution),
                opt_str(args.aspect),
                opt_str(args.quality),
            ) == Some(x),
            Err(_) => export_resolution_spec(
                opt_str(args.resolution),
                opt_str(args.aspect),
                opt_str(args.quality),
            ).is_none(),
        },
{
    if let Some(res) = &args.resolution {
        return match parse_resolution_override(res.as_str()) {
            Ok(wh) => Ok(Some(wh)),
            Err(e) => Err(e),
        };
    }
    if let Some(a) = &args.aspect {
        let r = match &args.quality {
            Some(q) => canvas_from_aspect_quality(a.as_str(), q.as_str()),
            None => canvas_from_aspect_quality(a.as_str(), "fullhd"),
        };
        return match r {
            Ok(wh) => Ok(Some(wh)),
            Err(e) => Err(e),
        };
    }
    if let Some(q) = &args.quality {
        return match canvas_from_aspect_quality("16:9", q.as_str()) {
            Ok(wh) => Ok(Some(wh)),
            Err(e) => Err(e),
        };
    }
    Ok(None)
}

/// A coordinate `v` scaled from an `old` canvas side to a `new` one: the
/// nearest integer to `v * new / old` (halves rounded up), capped at
/// `u32::MAX`; against a zero-sized side, a positive `v` grows to the cap and
/// zero stays zero.
pub open spec fn scaled(v: u32, new: u32, old: u32) -> u32 {
    if old == 0 {
        if v > 0 && new > 0 {
            u32::MAX
        } else {
            0
        }
    } else {
        let q = (2 * v * new + old) / (2 * old);
        if q > u32::MAX {
            u32::MAX
        } else {
            q as u32
        }
    }
}

/// `v` scaled from `old` to `new` (see `scaled`).
pub fn scale_coord(v: u32, new: u32, old: u32) -> (r: u32)
    ensures
        r == scaled(v, new, old),
{
    if old == 0 {
        if v > 0 && new > 0 {
            u32::MAX
        } else {
            0
        }
    } else {
        let a: u128 = v as u128;
        let b: u128 = new as u128;
        assert(a * b <= 0xffff_fffe_0000_0001) by (nonlinear_arith)
            requires
                a <= 0xffff_ffff,
                b <= 0xffff_ffff,
        ;
        let prod: u128 = a * b;
        let num: u128 = 2 * prod + (old as u128);
        let den: u128 = 2 * (old as u128);
        let q: u128 = num / den;
        assert(num == 2 * v * new + old) by (nonlinear_arith)
            requires
                num == 2 * prod + old,
                prod == a * b,
                a == v,
                b == new,
        ;
        if q > u32::MAX as u128 {
            u32::MAX
        } else {
            q as u32
        }
    }
}

/// Pane `b` is pane `a` with its rectangle rescaled from `ow`×`oh` to `nw`×`nh`.
pub open spec fn rescaled_pane(a: Pane, b: Pane, nw: u32, nh: u32, ow: u32, oh: u32) -> bool {
    &&& b.x == scaled(a.x, nw, ow)
    &&& b.y == scaled(a.y, nh, oh)
    &&& b.width == scaled(a.width, nw, ow)
    &&& b.height == scaled(a.height, nh, oh)
    &&& b == Pane { x: b.x, y: b.y, width: b.width, height: b.height, ..a }
}

/// Rescales the layout and every pane to a `new_w`×`new_h` canvas; a canvas of
/// the same size is left alone.
pub fn rescale_layout(score: &mut Score, new_w: u32, new_h: u32)
    ensures
        old(score).layout.width == new_w && old(score).layout.height == new_h ==> *final(score)
            == *old(score),
        !(old(score).layout.width == new_w && old(score).layout.height == new_h) ==> {
            let ow = old(score).layout.width;
            let oh = old(score).layout.height;
            &&& final(score).layout == Layout {
                width: new_w,
                height: new_h,
                panes: final(score).layout.panes,
                ..old(score).layout
            }
            &&& final(score).demo == old(score).demo
            &&& final(score).sources == old(score).sources
            &&& final(score).timeline == old(score).timeline
            &&& final(score).layout.panes@.len() == old(score).layout.panes@.len()
            &&& forall|i: int|
                0 <= i < old(score).layout.panes@.len() ==> rescaled_pane(
                    old(score).layout.panes@[i],
                    #[trigger] final(score).layout.panes@[i],
                    new_w,
                    new_h,
                    ow,
                    oh,
                )
        },
{
    let old_w = score.layout.width;
    let old_h = score.layout.height;
    if old_w == new_w && old_h == new_h {
        return;
    }
    let mut panes: Vec<Pane> = Vec::new();
    let mut i: usize = 0;
    while i < score.layout.panes.len()
        invariant
            0 <= i <= score.layout.panes@.len(),
            *score == *old(score),
            old_w == old(score).layout.width,
            old_h == old(score).layout.height,
            panes@.len() == i,
            forall|j: int|
                0 <= j < i ==> rescaled_pane(
                    score.layout.panes@[j],
                    #[trigger] panes@[j],
                    new_w,
                    new_h,
                    old_w,
                    old_h,
                ),
        decreases score.layout.panes@.len() - i,
    {
        let p = &score.layout.panes[i];
        let q = Pane {
            id: p.id.clone(),
            kind: p.kind,
            x: scale_coord(p.x, new_w, old_w),
            y: scale_coord(p.y, new_h, old_h),
            width: scale_coord(p.width, new_w, old_w),
            height: scale_coord(p.height, new_h, old_h),
            font_family: copy_opt_string(&p.font_family),
            font_size: p.font_size,
            url: copy_opt_string(&p.url),
            theme: copy_opt_string(&p.theme),
            ignore_speed: p.ignore_speed,
        };
        panes.push(q);
        i += 1;
    }
    score.layout.width = new_w;
    score.layout.height = new_h;
    score.layout.panes = panes;
}

/// An equal copy of an optional string.
fn copy_opt_string(o: &Option<String>) -> (r: Option<String>)
    ensures
        r == *o,
{
    match o {
        Some(s) => Some(s.clone()),
        None => None,
    }
}

} // verus!
