//! The rendering pipeline's verified part: automatic balance of a style,
//! canvas geometry and allocation, and the conversions between straight and
//! premultiplied alpha. The vector drawing itself (gradient, shadow, rounded
//! corners) works in floating point on the canvas planned here.

use vstd::prelude::*;
use crate::model::{is_default_shadow, Background, RawImage, Ratio, Scale, Style, TWELVE_BITS};
use crate::binary32::{
    SIG_HIGH,
    divide,
    from_u32,
    from_u32_value,
    integer_rounded,
    lemma_rounded_integer,
    less,
    multiply,
    nearest_integer,
    product,
    quotient,
    round_integer,
    round_ratio,
    round_to_u32,
    rounded,
    value_less,
};
use crate::presets::{
    builtin_gradients,
    gradient_by_id,
    lookup_index,
    preset_colors,
    preset_ids,
    PRESET_COUNT,
};

verus! {

/// One colour channel scaled by its alpha: `c * a / 255`, rounded down.
pub open spec fn premultiplied_channel(c: u8, a: u8) -> u8 {
    (c as int * a as int / 255) as u8
}

/// One channel of a premultiplied pixel brought back to straight alpha:
/// `c * 255 / a` rounded to nearest, capped at 255; 0 when `a` is 0.
pub open spec fn straight_channel(c: u8, a: u8) -> u8 {
    if a == 0 {
        0
    } else {
        let v = (c as int * 255 + a as int / 2) / a as int;
        (if v > 255 { 255 } else { v }) as u8
    }
}

/// Byte `i` of `premultiply(data)`: whole RGBA pixels only, channels
/// scaled by alpha, alpha kept.
pub open spec fn premultiplied_byte(data: Seq<u8>, i: int) -> u8 {
    let base = i - i % 4;
    if i % 4 == 3 {
        data[i]
    } else {
        premultiplied_channel(data[i], data[base + 3])
    }
}

/// Byte `i` of `unpremultiply(data)`: a pixel of alpha 0 becomes fully
/// zero; otherwise channels are divided by alpha and alpha is kept.
pub open spec fn straight_byte(data: Seq<u8>, i: int) -> u8 {
    let base = i - i % 4;
    let a = data[base + 3];
    if a == 0 {
        0
    } else if i % 4 == 3 {
        a
    } else {
        straight_channel(data[i], a)
    }
}

/// Length of the output of both conversions: the bytes of whole pixels.
pub open spec fn whole_pixels_len(len: int) -> int {
    len - len % 4
}

pub open spec fn premultiplied(data: Seq<u8>) -> Seq<u8> {
    Seq::new(whole_pixels_len(data.len() as int) as nat, |i: int| premultiplied_byte(data, i))
}

pub open spec fn straightened(data: Seq<u8>) -> Seq<u8> {
    Seq::new(whole_pixels_len(data.len() as int) as nat, |i: int| straight_byte(data, i))
}

fn premultiply_channel(c: u8, a: u8) -> (r: u8)
    ensures
        r == premultiplied_channel(c, a),
{
    assert(c as int * a as int <= 255 * 255) by (nonlinear_arith)
        requires
            c <= 255,
            a <= 255,
    ;
    let p = (c as u32) * (a as u32);
    (p / 255) as u8
}

fn straighten_channel(c: u8, a: u8) -> (r: u8)
    requires
        a > 0,
    ensures
        r == straight_channel(c, a),
{
    let a32 = a as u32;
    let v = (c as u32 * 255 + a32 / 2) / a32;
    if v > 255 {
        255
    } else {
        v as u8
    }
}

/// Converts straight-alpha RGBA8 pixels to premultiplied alpha, the storage
/// format of the drawing canvas. Trailing bytes that do not form a whole
/// pixel are dropped.
pub fn premultiply(data: &[u8]) -> (out: Vec<u8>)
    ensures
        out@ == premultiplied(data@),
{
    let len = data.len();
    let n = len / 4;
    let mut out: Vec<u8> = Vec::new();
    let mut j: usize = 0;
    while j < n
        invariant
            n == data@.len() / 4,
            len == data@.len(),
            4 * n <= len,
            j <= n,
            out@.len() == 4 * j,
            forall|i: int| 0 <= i < 4 * j ==> out@[i] == premultiplied_byte(data@, i),
        decreases n - j,
    {
        let b = 4 * j;
        let a = data[b + 3];
        out.push(premultiply_channel(data[b], a));
        out.push(premultiply_channel(data[b + 1], a));
        out.push(premultiply_channel(data[b + 2], a));
        out.push(a);
        assert forall|i: int| 4 * j <= i < 4 * j + 4 implies out@[i] == premultiplied_byte(data@, i) by {
            assert(i - i % 4 == b);
        }
        j += 1;
    }
    assert(out@ =~= premultiplied(data@));
    out
}

/// Converts premultiplied RGBA8 pixels back to straight alpha (the format
/// expected by display and export). Trailing bytes that do not form a whole
/// pixel are dropped.
pub fn unpremultiply(data: &[u8]) -> (out: Vec<u8>)
    ensures
        out@ == straightened(data@),
{
    let len = data.len();
    let n = len / 4;
    let mut out: Vec<u8> = Vec::new();
    let mut j: usize = 0;
    while j < n
        invariant
            n == data@.len() / 4,
            len == data@.len(),
            4 * n <= len,
            j <= n,
            out@.len() == 4 * j,
            forall|i: int| 0 <= i < 4 * j ==> out@[i] == straight_byte(data@, i),
        decreases n - j,
    {
        let b = 4 * j;
        let a = data[b + 3];
        if a == 0 {
            out.push(0);
            out.push(0);
            out.push(0);
            out.push(0);
        } else {
            out.push(straighten_channel(data[b], a));
            out.push(straighten_channel(data[b + 1], a));
            out.push(straighten_channel(data[b + 2], a));
            out.push(a);
        }
        assert forall|i: int| 4 * j <= i < 4 * j + 4 implies out@[i] == straight_byte(data@, i) by {
            assert(i - i % 4 == b);
        }
        j += 1;
    }
    assert(out@ =~= straightened(data@));
    out
}

proof fn lemma_div_bounds(x: int, d: int)
    requires
        x >= 0,
        d > 0,
    ensures
        d * (x / d) <= x < d * (x / d) + d,
{
    vstd::arithmetic::div_mod::lemma_fundamental_div_mod(x, d);
    vstd::arithmetic::div_mod::lemma_mod_bound(x, d);
}

/// Premultiplying scales a channel down by its alpha: an opaque channel
/// is kept, a transparent one becomes 0, and the result never exceeds
/// either the channel or the alpha, and grows with both.
pub proof fn lemma_premultiplied_channel(c: u8, c2: u8, a: u8, a2: u8)
    ensures
        premultiplied_channel(c, 255) == c,
        premultiplied_channel(c, 0) == 0,
        premultiplied_channel(c, a) <= c,
        premultiplied_channel(c, a) <= a,
        c <= c2 && a <= a2 ==> premultiplied_channel(c, a) <= premultiplied_channel(c2, a2),
        straight_channel(c, 255) == c,
        straight_channel(c, 0) == 0,
{
    assert(c as int * 255 / 255 == c) by (nonlinear_arith);
    assert(0 <= c as int * a as int <= 255 * c && c as int * a as int <= 255 * a) by (nonlinear_arith);
    lemma_div_bounds(c as int * a as int, 255);
    if c <= c2 && a <= a2 {
        assert(c as int * a as int <= c2 as int * a2 as int) by (nonlinear_arith)
            requires
                c <= c2,
                a <= a2,
                c >= 0,
                a >= 0,
        ;
        assert(0 <= c2 as int * a2 as int <= 255 * 255) by (nonlinear_arith);
        lemma_div_bounds(c2 as int * a2 as int, 255);
        vstd::arithmetic::div_mod::lemma_div_is_ordered(
            c as int * a as int,
            c2 as int * a2 as int,
            255,
        );
    }
    assert((c as int * 255 + 127) / 255 == c) by (nonlinear_arith);
}

/// Premultiplying then straightening a channel of nonzero alpha `a` keeps
/// it within `(254 + a - a/2) / a` below its value, never above it, and
/// exactly equal when the pixel is opaque.
pub proof fn lemma_channel_roundtrip(c: u8, a: u8)
    requires
        a > 0,
    ensures
        straight_channel(premultiplied_channel(c, a), a) <= c,
        (c - straight_channel(premultiplied_channel(c, a), a)) * a + a / 2 < 254 + a,
        a == 255 ==> straight_channel(premultiplied_channel(c, a), a) == c,
{
    let ca = c as int * a as int;
    assert(0 <= ca <= 255 * a) by (nonlinear_arith)
        requires
            ca == c as int * a as int,
            0 <= c <= 255,
            a > 0,
    ;
    let p = ca / 255;
    lemma_div_bounds(ca, 255);
    assert(p <= a);
    assert(premultiplied_channel(c, a) == p);
    let num = p * 255 + a / 2;
    let v = num / (a as int);
    lemma_div_bounds(num, a as int);
    assert(v <= 255) by (nonlinear_arith)
        requires
            a * v <= num,
            num == p * 255 + a / 2,
            p <= a,
            a > 0,
            a / 2 < a,
    ;
    assert(straight_channel(p as u8, a) == v);
    assert(v <= c) by (nonlinear_arith)
        requires
            a * v <= num,
            num == p * 255 + a / 2,
            255 * p <= ca,
            ca == c * a,
            a / 2 < a,
            a > 0,
    ;
    assert((c - v) * a + a / 2 < 254 + a) by (nonlinear_arith)
        requires
            num < a * v + a,
            num == p * 255 + a / 2,
            ca < 255 * p + 255,
            ca == c * a,
    ;
    if a == 255 {
        assert(p == c);
        assert(num == 255 * c + 127);
        assert(255 * v <= 255 * c + 127 && 255 * c + 127 < 255 * v + 255);
        assert(v == c);
    }
}

/// Straightening a premultiplied buffer gives back the original pixels up
/// to rounding: alpha is kept exactly, colour channels of a pixel with
/// alpha `a > 0` come back at most `(254 + a - a/2) / a` lower and never
/// higher (exactly for opaque pixels), and pixels of alpha 0 come back as
/// transparent black.
pub proof fn lemma_premultiply_roundtrip(data: Seq<u8>)
    ensures
        straightened(premultiplied(data)).len() == whole_pixels_len(data.len() as int),
        forall|i: int|
            0 <= i < whole_pixels_len(data.len() as int) ==> {
                let a = data[i - i % 4 + 3];
                let back = #[trigger] straightened(premultiplied(data))[i];
                &&& i % 4 == 3 ==> back == (if a == 0 { 0 } else { a })
                &&& i % 4 != 3 && a == 0 ==> back == 0
                &&& i % 4 != 3 && a > 0 ==> back <= data[i] && (data[i] - back) * a + a / 2 < 254 + a
                &&& i % 4 != 3 && a == 255 ==> back == data[i]
            },
{
    let pm = premultiplied(data);
    assert forall|i: int| 0 <= i < whole_pixels_len(data.len() as int) implies {
        let a = data[i - i % 4 + 3];
        let back = #[trigger] straightened(premultiplied(data))[i];
        &&& i % 4 == 3 ==> back == (if a == 0 { 0 } else { a })
        &&& i % 4 != 3 && a == 0 ==> back == 0
        &&& i % 4 != 3 && a > 0 ==> back <= data[i] && (data[i] - back) * a + a / 2 < 254 + a
        &&& i % 4 != 3 && a == 255 ==> back == data[i]
    } by {
        let base = i - i % 4;
        assert(base + 3 < whole_pixels_len(data.len() as int));
        assert(pm[base + 3] == data[base + 3]);
        if i % 4 != 3 && data[base + 3] > 0 {
            lemma_channel_roundtrip(data[i], data[base + 3]);
        }
    }
}

/// The drawing canvas of tiny-skia (`tiny_skia::Pixmap`), opaque here: its
/// contents are known through `pixmap_bytes` and `pixmap_size`.
#[verifier::external_type_specification]
#[verifier::external_body]
pub struct ExPixmap(tiny_skia::Pixmap);

/// The bytes a pixmap holds: premultiplied RGBA8, row-major.
pub uninterp spec fn pixmap_bytes(p: tiny_skia::Pixmap) -> Seq<u8>;

/// The width and height a pixmap was made with.
pub uninterp spec fn pixmap_size(p: tiny_skia::Pixmap) -> (u32, u32);

/// Sizes for which `tiny_skia::Pixmap::new` succeeds: both sides nonzero, a
/// row of at most `i32::MAX` bytes, and a buffer whose length fits a `usize`.
pub open spec fn pixmap_allocatable(width: int, height: int) -> bool {
    &&& width > 0
    &&& height > 0
    &&& width * 4 <= i32::MAX
    &&& width * height * 4 <= usize::MAX
}

/// Calls `tiny_skia::Pixmap::new`. Its source returns `None` exactly when a
/// side is zero, a row would take more than `i32::MAX` bytes, or the buffer
/// length overflows `usize`; otherwise a pixmap of that size whose
/// `width * height * 4` bytes are all zero (transparent).
#[verifier::external_body]
fn new_pixmap(width: u32, height: u32) -> (r: Option<tiny_skia::Pixmap>)
    ensures
        r is Some <==> pixmap_allocatable(width as int, height as int),
        r matches Some(p) ==> pixmap_size(p) == (width, height) && pixmap_bytes(p) == Seq::new(
            (width * height * 4) as nat,
            |i: int| 0u8,
        ),
{
    tiny_skia::Pixmap::new(width, height)
}

/// Calls `tiny_skia::Pixmap::width`, which returns the width the pixmap was
/// made with.
#[verifier::external_body]
fn pixmap_width(p: &tiny_skia::Pixmap) -> (w: u32)
    ensures
        w == pixmap_size(*p).0,
{
    p.width()
}

/// Calls `tiny_skia::Pixmap::height`, which returns the height the pixmap
/// was made with.
#[verifier::external_body]
fn pixmap_height(p: &tiny_skia::Pixmap) -> (h: u32)
    ensures
        h == pixmap_size(*p).1,
{
    p.height()
}

/// Calls `tiny_skia::Pixmap::data`: the pixmap's bytes, whose length the
/// crate keeps at `width * height * 4` for every pixmap it makes.
#[verifier::external_body]
fn pixmap_data(p: &tiny_skia::Pixmap) -> (d: &[u8])
    ensures
        d@ == pixmap_bytes(*p),
        d@.len() == pixmap_size(*p).0 as int * pixmap_size(*p).1 as int * 4,
{
    p.data()
}

/// Pixel multiplier of an output scale.
pub open spec fn scale_factor(s: Scale) -> int {
    match s {
        Scale::X1 => 1,
        Scale::X2 => 2,
    }
}

/// `x`, or one when it is smaller.
pub open spec fn at_least_one(x: int) -> int {
    if x < 1 { 1 } else { x }
}

/// `x` converted to `u32`, saturating at `u32::MAX`.
pub open spec fn saturated(x: int) -> int {
    if x > u32::MAX { u32::MAX as int } else { x }
}

/// Padded content extent along one axis, as the drawing computes it in
/// single precision: the side (rounded to single precision) times the
/// scale, plus twice the scaled padding, the sum rounded to single
/// precision. Every term is an integer, and so is the result.
pub open spec fn padded_extent(side: int, style: Style) -> int {
    let s = scale_factor(style.scale);
    integer_rounded(integer_rounded(side) * s + 2 * style.padding * s)
}

/// Canvas extent, before the conversion to pixels, for a non-empty
/// `width x height` source.
///
/// It is the padded content. A fixed `rw:rh` ratio, compared in single
/// precision with the content's own ratio, widens the canvas (height times
/// the ratio) when the content is narrower and heightens it (width divided
/// by the ratio) otherwise, each product or quotient in single precision
/// and rounded to the nearest integer. A zero term makes the ratio
/// degenerate: `rw:0` asks for an unbounded width, `0:rh` for an unbounded
/// height, and `0:0` gives a height of no pixel (kept at one below).
pub open spec fn canvas_extent(width: int, height: int, style: Style) -> (int, int) {
    let cw = padded_extent(width, style);
    let ch = padded_extent(height, style);
    match style.ratio {
        Ratio::Auto => (cw, ch),
        Ratio::Fixed(rw, rh) => {
            if rw > 0 && rh > 0 {
                let target = quotient(from_u32_value(rw as int), from_u32_value(rh as int));
                let fw = rounded(cw, 1, 0);
                let fh = rounded(ch, 1, 0);
                if value_less(quotient(fw, fh), target) {
                    (nearest_integer(product(fh, target)), ch)
                } else {
                    (cw, nearest_integer(quotient(fw, target)))
                }
            } else if rw > 0 {
                (u32::MAX as int, ch)
            } else if rh > 0 {
                (cw, u32::MAX as int)
            } else {
                (cw, 0)
            }
        },
    }
}

/// A canvas side in pixels: at least one, saturating at `u32::MAX`.
pub open spec fn canvas_side(v: int) -> int {
    at_least_one(saturated(v))
}

/// Canvas width of the render of a `width x height` source.
pub open spec fn canvas_width(width: int, height: int, style: Style) -> int {
    canvas_side(canvas_extent(width, height, style).0)
}

/// Canvas height of the render of a `width x height` source.
pub open spec fn canvas_height(width: int, height: int, style: Style) -> int {
    canvas_side(canvas_extent(width, height, style).1)
}

/// A render in preparation: the transparent canvas and the geometry the
/// drawing needs (content size once scaled, and the scale itself). The
/// content is centred on the canvas.
pub struct RenderPlan {
    pub canvas: tiny_skia::Pixmap,
    pub canvas_width: u32,
    pub canvas_height: u32,
    pub content_width: u64,
    pub content_height: u64,
    pub scale: u32,
}

fn side_u64(v: u64) -> (r: u32)
    ensures
        r == canvas_side(v as int),
{
    if v > u32::MAX as u64 {
        u32::MAX
    } else if v < 1 {
        1
    } else {
        v as u32
    }
}

fn at_least_one_u32(v: u32) -> (r: u32)
    ensures
        r == at_least_one(v as int),
{
    if v < 1 {
        1
    } else {
        v
    }
}

fn padded_extent_exec(side: u32, style: &Style) -> (r: u64)
    requires
        side >= 1,
    ensures
        r == padded_extent(side as int, *style),
        1 <= r < 0x10_0000_0000,
{
    let s: u64 = match style.scale {
        Scale::X1 => 1,
        Scale::X2 => 2,
    };
    proof {
        lemma_rounded_integer(side as int);
    }
    let content = round_integer(side as u64);
    let sum = content * s + 2 * (style.padding as u64) * s;
    proof {
        lemma_rounded_integer(sum as int);
    }
    round_integer(sum)
}

/// Canvas size (width, height) of the render of a non-empty
/// `width x height` source.
pub fn canvas_size(width: u32, height: u32, style: &Style) -> (r: (u32, u32))
    requires
        width >= 1,
        height >= 1,
    ensures
        r.0 == canvas_width(width as int, height as int, *style),
        r.1 == canvas_height(width as int, height as int, *style),
{
    let cw = padded_extent_exec(width, style);
    let ch = padded_extent_exec(height, style);
    match style.ratio {
        Ratio::Auto => (side_u64(cw), side_u64(ch)),
        Ratio::Fixed(rw, rh) => {
            if rw > 0 && rh > 0 {
                let target = divide(from_u32(rw), from_u32(rh));
                let fw = round_ratio(cw as u128, 1, 0);
                let fh = round_ratio(ch as u128, 1, 0);
                if less(divide(fw, fh), target) {
                    (at_least_one_u32(round_to_u32(multiply(fh, target))), side_u64(ch))
                } else {
                    (side_u64(cw), at_least_one_u32(round_to_u32(divide(fw, target))))
                }
            } else if rw > 0 {
                (u32::MAX, side_u64(ch))
            } else if rh > 0 {
                (side_u64(cw), u32::MAX)
            } else {
                (side_u64(cw), 1)
            }
        },
    }
}

/// How the canvas background is painted before the image goes on it.
pub enum BackgroundPaint {
    /// Left fully transparent.
    Clear,
    /// Filled with one straight-alpha RGBA colour.
    Fill([u8; 4]),
    /// A linear gradient from the top-left to the bottom-right corner
    /// through these colours, evenly spaced.
    Gradient(Vec<[u8; 4]>),
}

/// Neutral grey that stands in for an image background, which is not
/// painted yet.
pub open spec fn image_placeholder() -> [u8; 4] {
    [240u8, 240, 240, 255]
}

/// The paint of a background: a solid colour as it is, the colours of the
/// gradient preset named by its identifier (the first preset for an unknown
/// one), the placeholder grey for an image, nothing for a transparent one.
pub fn background_paint(background: &Background) -> (p: BackgroundPaint)
    ensures
        match *background {
            Background::Transparent => p is Clear,
            Background::Solid(c) => p == BackgroundPaint::Fill(c),
            Background::Image(_) => p == BackgroundPaint::Fill(image_placeholder()),
            Background::Gradient(id) => p matches BackgroundPaint::Gradient(colors) && colors@
                == preset_colors()[lookup_index(id@)],
        },
{
    match background {
        Background::Transparent => BackgroundPaint::Clear,
        Background::Solid(c) => BackgroundPaint::Fill(*c),
        Background::Image(_) => BackgroundPaint::Fill([240, 240, 240, 255]),
        Background::Gradient(id) => {
            let preset = gradient_by_id(id.as_str());
            BackgroundPaint::Gradient(preset.colors)
        },
    }
}

/// Prepares the render of `source` with `style`: `None` when the source is
/// empty or the canvas cannot be allocated; otherwise a transparent canvas
/// of the planned size, with the scaled content size and the scale.
pub fn plan_render(source: &RawImage, style: &Style) -> (plan: Option<RenderPlan>)
    ensures
        plan is None <==> (source.width == 0 || source.height == 0 || !pixmap_allocatable(
            canvas_width(source.width as int, source.height as int, *style),
            canvas_height(source.width as int, source.height as int, *style),
        )),
        plan matches Some(p) ==> {
            &&& p.canvas_width == canvas_width(source.width as int, source.height as int, *style)
            &&& p.canvas_height == canvas_height(source.width as int, source.height as int, *style)
            &&& p.scale == scale_factor(style.scale)
            &&& p.content_width == source.width * scale_factor(style.scale)
            &&& p.content_height == source.height * scale_factor(style.scale)
            &&& pixmap_size(p.canvas) == (p.canvas_width, p.canvas_height)
            &&& pixmap_bytes(p.canvas) == Seq::new(
                (p.canvas_width * p.canvas_height * 4) as nat,
                |i: int| 0u8,
            )
        },
{
    if source.width == 0 || source.height == 0 {
        return None;
    }
    let scale: u32 = match style.scale {
        Scale::X1 => 1,
        Scale::X2 => 2,
    };
    let (canvas_width, canvas_height) = canvas_size(source.width, source.height, style);
    match new_pixmap(canvas_width, canvas_height) {
        Some(canvas) => Some(
            RenderPlan {
                canvas,
                canvas_width,
                canvas_height,
                content_width: source.width as u64 * scale as u64,
                content_height: source.height as u64 * scale as u64,
                scale,
            },
        ),
        None => None,
    }
}

/// A canvas on which nothing was drawn finishes as a fully transparent
/// image: straightening an all-zero buffer gives it back unchanged.
pub proof fn lemma_blank_canvas_is_transparent(len: nat)
    ensures
        straightened(Seq::new(len, |i: int| 0u8)) =~= Seq::new(
            whole_pixels_len(len as int) as nat,
            |i: int| 0u8,
        ),
{
}

/// Final render: straight-alpha RGBA8, ready for display or export.
pub struct RenderedImage {
    pub width: u32,
    pub height: u32,
    pub pixels: Vec<u8>,
}

/// Turns a drawn canvas into the final image: its size, and its pixels
/// brought back to straight alpha.
pub fn finish_render(canvas: &tiny_skia::Pixmap) -> (r: RenderedImage)
    ensures
        r.width == pixmap_size(*canvas).0,
        r.height == pixmap_size(*canvas).1,
        r.pixels@ == straightened(pixmap_bytes(*canvas)),
        r.pixels@.len() == r.width * r.height * 4,
{
    let width = pixmap_width(canvas);
    let height = pixmap_height(canvas);
    let data = pixmap_data(canvas);
    let pixels = unpremultiply(data);
    assert((width as int * height as int * 4) % 4 == 0) by (nonlinear_arith);
    RenderedImage { width, height, pixels }
}

/// Padded content width: `(width + 2 * padding) * scale`.
pub open spec fn padded_width(width: int, style: Style) -> int {
    (width + 2 * style.padding) * scale_factor(style.scale)
}

/// Padded content height: `(height + 2 * padding) * scale`.
pub open spec fn padded_height(height: int, style: Style) -> int {
    (height + 2 * style.padding) * scale_factor(style.scale)
}

/// With a free ratio, and padded sides below `2^24` (where single
/// precision holds every integer), the canvas is exactly the padded
/// content.
pub proof fn lemma_auto_canvas_is_padded_content(width: u32, height: u32, style: Style)
    requires
        style.ratio == Ratio::Auto,
        width >= 1,
        height >= 1,
        padded_width(width as int, style) < SIG_HIGH,
        padded_height(height as int, style) < SIG_HIGH,
    ensures
        canvas_width(width as int, height as int, style) == padded_width(width as int, style),
        canvas_height(width as int, height as int, style) == padded_height(height as int, style),
{
    let s = scale_factor(style.scale);
    assert(width <= padded_width(width as int, style) && height <= padded_height(height as int, style))
        by (nonlinear_arith)
        requires
            padded_width(width as int, style) == (width + 2 * style.padding) * s,
            padded_height(height as int, style) == (height + 2 * style.padding) * s,
            s >= 1,
            style.padding >= 0,
    ;
    lemma_rounded_integer(width as int);
    lemma_rounded_integer(height as int);
    assert(integer_rounded(width as int) * s + 2 * style.padding * s == padded_width(width as int, style))
        by (nonlinear_arith)
        requires
            integer_rounded(width as int) == width,
            padded_width(width as int, style) == (width + 2 * style.padding) * s,
    ;
    assert(integer_rounded(height as int) * s + 2 * style.padding * s == padded_height(height as int, style))
        by (nonlinear_arith)
        requires
            integer_rounded(height as int) == height,
            padded_height(height as int, style) == (height + 2 * style.padding) * s,
    ;
    lemma_rounded_integer(padded_width(width as int, style));
    lemma_rounded_integer(padded_height(height as int, style));
}

/// Padding chosen for a `width x height` image: 8 % of its larger side,
/// rounded down, kept between 32 and 160 pixels.
pub open spec fn balanced_padding(width: int, height: int) -> int {
    let m = if width > height { width } else { height };
    let p = m * 8 / 100;
    if p < 32 {
        32
    } else if p > 160 {
        160
    } else {
        p
    }
}

/// Gradient preset chosen for a `width x height` image: a short rotation
/// driven by the image size.
pub open spec fn balanced_preset(width: int, height: int) -> int {
    (width + height) % (PRESET_COUNT as int)
}

/// Computes pleasant default settings for an image: padding proportional
/// to its size, a gradient from the preset rotation, and the default
/// corners, shadow, ratio and scale.
pub fn auto_balance(source: &RawImage) -> (s: Style)
    ensures
        s.background matches Background::Gradient(id) && id@ == preset_ids()[balanced_preset(
            source.width as int,
            source.height as int,
        )],
        s.padding == balanced_padding(source.width as int, source.height as int),
        s.corner_radius.bits == TWELVE_BITS,
        is_default_shadow(s.shadow),
        s.ratio == Ratio::Auto,
        s.scale == Scale::X2,
{
    let max_dim = if source.width > source.height {
        source.width
    } else {
        source.height
    };
    let scaled = max_dim as u64 * 8 / 100;
    let padding: u16 = if scaled < 32 {
        32
    } else if scaled > 160 {
        160
    } else {
        scaled as u16
    };
    let mut gradients = builtin_gradients();
    let idx = ((source.width as u64 + source.height as u64) % (PRESET_COUNT as u64)) as usize;
    let preset = gradients.swap_remove(idx);
    let defaults = Style::default();
    Style {
        background: Background::Gradient(preset.id),
        padding,
        corner_radius: defaults.corner_radius,
        shadow: defaults.shadow,
        ratio: defaults.ratio,
        scale: defaults.scale,
    }
}

/// The automatic padding grows with the image: a larger image never gets
/// less padding, and the padding always stays between 32 and 160.
pub proof fn lemma_balanced_padding_monotone(w1: u32, h1: u32, w2: u32, h2: u32)
    requires
        (if w1 > h1 { w1 } else { h1 }) <= (if w2 > h2 { w2 } else { h2 }),
    ensures
        balanced_padding(w1 as int, h1 as int) <= balanced_padding(w2 as int, h2 as int),
        32 <= balanced_padding(w1 as int, h1 as int) <= 160,
{
    let m1 = if w1 > h1 { w1 as int } else { h1 as int };
    let m2 = if w2 > h2 { w2 as int } else { h2 as int };
    assert(m1 * 8 / 100 <= m2 * 8 / 100) by {
        vstd::arithmetic::div_mod::lemma_div_is_ordered(m1 * 8, m2 * 8, 100);
    }
}

/// The automatic background is always one of the built-in gradients, so
/// looking it up by identifier finds that very preset.
pub proof fn lemma_balanced_preset_is_builtin(width: u32, height: u32)
    ensures
        0 <= balanced_preset(width as int, height as int) < PRESET_COUNT,
        crate::presets::lookup_index(preset_ids()[balanced_preset(width as int, height as int)])
            == balanced_preset(width as int, height as int),
{
    crate::presets::lemma_lookup_by_id(preset_ids()[balanced_preset(width as int, height as int)]);
}

/// The automatic style depends on the image size only through its larger
/// side (padding) and the sum of its sides (gradient): swapping the sides
/// changes nothing; the gradient moves to the next preset of the rotation
/// for each extra pixel and comes back after 14; the padding is 32 up to a
/// larger side of 400, 160 from 2000 on, and grows by 2 for every 25
/// pixels in between.
pub proof fn lemma_balance_rotation(width: int, height: int, m: int)
    requires
        width >= 0,
        height >= 0,
        m >= 0,
    ensures
        balanced_preset(width, height) == balanced_preset(height, width),
        balanced_padding(width, height) == balanced_padding(height, width),
        balanced_preset(width + 1, height) == (balanced_preset(width, height) + 1) % 14,
        balanced_preset(width + 14, height) == balanced_preset(width, height),
        balanced_preset(0, 0) == 0,
        m <= 400 ==> balanced_padding(m, 0) == 32,
        m >= 2000 ==> balanced_padding(m, 0) == 160,
        400 <= m <= 1975 ==> balanced_padding(m + 25, 0) == balanced_padding(m, 0) + 2,
{
    assert((m + 25) * 8 / 100 == m * 8 / 100 + 2);
}

} // verus!
