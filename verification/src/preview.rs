//! Preview helpers: a checkerboard behind transparent pixels, and a
//! nearest-neighbour downscale of very large images before display (export
//! always works on the full-resolution image).

use vstd::prelude::*;
use crate::render::{at_least_one, saturated};
use vstd::arithmetic::power2::{lemma2_to64, pow2};
use crate::binary32::{
    lemma_rounded_nonnegative,
    lemma_truncated_nonnegative,
    Binary32,
    SIG_HIGH,
    divide,
    from_u32,
    from_u32_value,
    multiply,
    nearest_integer,
    product,
    quotient,
    round_to_u32,
    trunc_to_u32,
    truncated,
};

verus! {

/// Side of a checkerboard cell, in pixels.
pub const CHECKER_CELL: u32 = 8;

/// Grey level of the light checkerboard cells.
pub const CHECKER_LIGHT: u8 = 235;

/// Grey level of the dark checkerboard cells.
pub const CHECKER_DARK: u8 = 214;

/// Grey level of the checkerboard at pixel `(x, y)`: light where the cell
/// coordinates add up to an even number, dark elsewhere.
pub open spec fn checker_shade(x: int, y: int) -> u8 {
    if (x / CHECKER_CELL as int + y / CHECKER_CELL as int) % 2 == 0 {
        CHECKER_LIGHT
    } else {
        CHECKER_DARK
    }
}

/// A straight-alpha channel over an opaque background of grey `bg`.
pub open spec fn blend(fg: u8, alpha: u8, bg: u8) -> u8 {
    ((fg * alpha + bg * (255 - alpha)) / 255) as u8
}

/// Byte `4 * p + k` of the composite, for pixel `p` of an image `width`
/// pixels wide (column `p % width`, row `p / width`).
pub open spec fn composited_byte(width: int, rgba: Seq<u8>, p: int, k: int) -> u8 {
    if k == 3 {
        255
    } else {
        blend(rgba[4 * p + k], rgba[4 * p + 3], checker_shade(p % width, p / width))
    }
}

fn blend_channel(fg: u8, alpha: u8, bg: u8) -> (r: u8)
    ensures
        r == blend(fg, alpha, bg),
{
    assert(fg * alpha + bg * (255 - alpha) <= 255 * 255) by (nonlinear_arith)
        requires
            fg <= 255,
            alpha <= 255,
            bg <= 255,
    ;
    let v = (fg as u32 * alpha as u32 + bg as u32 * (255 - alpha as u32)) / 255;
    v as u8
}

/// Composites straight-alpha RGBA pixels over a light/dark grey
/// checkerboard of 8-pixel cells, so that transparency shows in the
/// preview (export keeps the real transparency). Every pixel comes out
/// opaque; bytes of `rgba` past the `width x height` image come out as 0.
pub fn composite_on_checkerboard(width: u32, height: u32, rgba: &[u8]) -> (out: Vec<u8>)
    requires
        width * height * 4 <= rgba@.len(),
        width * height * 4 <= u32::MAX + 4,
    ensures
        out@.len() == rgba@.len(),
        forall|p: int, k: int|
            0 <= p < width * height && 0 <= k < 4 ==> #[trigger] out@[4 * p + k]
                == composited_byte(width as int, rgba@, p, k),
        forall|i: int| width * height * 4 <= i < out@.len() ==> #[trigger] out@[i] == 0,
{
    let len = rgba.len();
    let mut out: Vec<u8> = Vec::new();
    let mut z: usize = 0;
    while z < len
        invariant
            len == rgba@.len(),
            z <= len,
            out@.len() == z,
            forall|i: int| 0 <= i < z ==> out@[i] == 0,
        decreases len - z,
    {
        out.push(0);
        z += 1;
    }
    let count = width as usize * height as usize;
    let w = width as usize;
    let mut p: usize = 0;
    while p < count
        invariant
            count == width * height,
            w == width,
            count * 4 <= len,
            len == rgba@.len(),
            out@.len() == len,
            p <= count,
            forall|q: int, k: int|
                0 <= q < p && 0 <= k < 4 ==> #[trigger] out@[4 * q + k] == composited_byte(
                    width as int,
                    rgba@,
                    q,
                    k,
                ),
            forall|i: int| 4 * p <= i < len ==> #[trigger] out@[i] == 0,
        decreases count - p,
    {
        let x = p % w;
        let y = p / w;
        let cell = x / (CHECKER_CELL as usize) + y / (CHECKER_CELL as usize);
        let shade = if cell % 2 == 0 {
            CHECKER_LIGHT
        } else {
            CHECKER_DARK
        };
        let i = 4 * p;
        let alpha = rgba[i + 3];
        out.set(i, blend_channel(rgba[i], alpha, shade));
        out.set(i + 1, blend_channel(rgba[i + 1], alpha, shade));
        out.set(i + 2, blend_channel(rgba[i + 2], alpha, shade));
        out.set(i + 3, 255);
        assert forall|q: int, k: int|
            0 <= q < p + 1 && 0 <= k < 4 implies #[trigger] out@[4 * q + k] == composited_byte(
                width as int,
                rgba@,
                q,
                k,
            ) by {
            if q == p {
                assert(checker_shade(q % width as int, q / width as int) == shade);
            }
        }
        p += 1;
    }
    out
}

/// Opaque pixels keep their colour on the checkerboard, fully transparent
/// ones show the checkerboard, and every composite pixel is opaque.
pub proof fn lemma_checkerboard_extremes(fg: u8, bg: u8)
    ensures
        blend(fg, 255, bg) == fg,
        blend(fg, 0, bg) == bg,
{
}

/// The checkerboard alternates along both axes: it is light in the corner
/// cell, keeps one grey across each 8 x 8 cell, and switches between the
/// light and the dark grey one cell to the right and one cell down.
pub proof fn lemma_checkerboard_alternates(x: int, y: int, x2: int, y2: int)
    requires
        0 <= x,
        0 <= y,
        0 <= x2,
        0 <= y2,
    ensures
        checker_shade(0, 0) == 235,
        checker_shade(x, y) == 235 || checker_shade(x, y) == 214,
        checker_shade(x + 8, y) != checker_shade(x, y),
        checker_shade(x, y + 8) != checker_shade(x, y),
        x / 8 == x2 / 8 && y / 8 == y2 / 8 ==> checker_shade(x2, y2) == checker_shade(x, y),
{
    assert((x + 8) / 8 == x / 8 + 1);
    assert((y + 8) / 8 == y / 8 + 1);
}

/// A fully transparent pixel of the composite shows the checkerboard grey
/// of its cell, opaque.
pub proof fn lemma_transparent_pixel_shows_checkerboard(width: int, rgba: Seq<u8>, p: int, k: int)
    requires
        width > 0,
        0 <= p,
        0 <= k < 4,
        rgba[4 * p + 3] == 0,
    ensures
        composited_byte(width, rgba, p, k) == (if k == 3 {
            255
        } else {
            checker_shade(p % width, p / width)
        }),
{
}

/// Larger side of a `width x height` image.
pub open spec fn largest_side(width: int, height: int) -> int {
    if width > height { width } else { height }
}

/// `true` when the image already fits in `max_dim` (or is empty) and is
/// kept as it is.
pub open spec fn fits_preview(width: int, height: int, max_dim: int) -> bool {
    largest_side(width, height) <= max_dim || largest_side(width, height) == 0
}

/// Single-precision scale factor `max_dim / largest` of the preview.
pub open spec fn preview_scale(largest: int, max_dim: int) -> (int, int) {
    quotient(from_u32_value(max_dim), from_u32_value(largest))
}

/// Side of the downscaled image: `side * scale` in single precision,
/// rounded to the nearest integer (halves away from zero), converted to
/// `u32` (saturating), at least one.
pub open spec fn downscaled_side(side: int, largest: int, max_dim: int) -> int {
    at_least_one(
        saturated(nearest_integer(product(from_u32_value(side), preview_scale(largest, max_dim)))),
    )
}

/// Source column (or row) read for output column (or row) `x`:
/// `x / scale` in single precision, rounded toward zero, converted to `u32`
/// (saturating), at most `side - 1`. With a zero limit the preview is a
/// single pixel, read from the first column (or row).
pub open spec fn source_coord(x: int, largest: int, max_dim: int, side: int) -> int {
    if max_dim == 0 {
        0
    } else {
        let c = saturated(
            truncated(quotient(from_u32_value(x), preview_scale(largest, max_dim))),
        );
        if c > side - 1 {
            side - 1
        } else {
            c
        }
    }
}

/// Index of the source pixel read for output pixel `p` of a downscaled
/// image `new_width` pixels wide.
pub open spec fn source_pixel(
    p: int,
    new_width: int,
    width: int,
    height: int,
    max_dim: int,
) -> int {
    let l = largest_side(width, height);
    source_coord(p / new_width, l, max_dim, height) * width + source_coord(
        p % new_width,
        l,
        max_dim,
        width,
    )
}

/// Output coordinate 0 reads source coordinate 0, and every output
/// coordinate reads a coordinate inside the source.
pub proof fn lemma_source_coord_in_source(x: int, largest: int, max_dim: int, side: int)
    requires
        0 <= x,
        side >= 1,
    ensures
        source_coord(0, largest, max_dim, side) == 0,
        0 <= source_coord(x, largest, max_dim, side) <= side - 1,
{
    lemma2_to64();
    assert(from_u32_value(0) == (0int, 0int));
    let s = preview_scale(largest, max_dim);
    assert(quotient((0int, 0int), s) == (0int, 0int));
    assert(truncated((0int, 0int)) == 0 * pow2(0));
    lemma_rounded_nonnegative(x, 1, 0);
    let fx = from_u32_value(x);
    lemma_rounded_nonnegative(fx.0, s.0, fx.1 - s.1);
    lemma_truncated_nonnegative(quotient(fx, s));
}

/// Requirements of a downscale that does take place: both sides nonzero,
/// the size of the result fits in `u32` when counted in bytes, and every
/// source pixel that is read lies in the buffer with its byte offset in
/// `u32`.
pub open spec fn downscale_fits(width: int, height: int, rgba: Seq<u8>, max_dim: int) -> bool {
    let l = largest_side(width, height);
    let nw = downscaled_side(width, l, max_dim);
    let nh = downscaled_side(height, l, max_dim);
    &&& width >= 1
    &&& height >= 1
    &&& nw * nh * 4 <= u32::MAX
    &&& forall|p: int|
        0 <= p < nw * nh ==> {
            let s = #[trigger] source_pixel(p, nw, width, height, max_dim);
            &&& 4 * s + 4 <= rgba.len()
            &&& 4 * s <= u32::MAX
        }
}

/// Source coordinate for output coordinate `x`, given the scale `s`.
fn coord(x: u32, s: Binary32, largest: u32, max_dim: u32, side: u32) -> (c: u32)
    requires
        side >= 1,
        largest >= 1,
        s@ == preview_scale(largest as int, max_dim as int),
        max_dim > 0 ==> s.mant > 0,
        s.mant <= SIG_HIGH,
        -0x1000 <= s.exp <= 0x1000,
    ensures
        c == source_coord(x as int, largest as int, max_dim as int, side as int),
{
    if max_dim == 0 {
        0
    } else {
        let q = divide(from_u32(x), s);
        let c = trunc_to_u32(q);
        if c > side - 1 {
            side - 1
        } else {
            c
        }
    }
}

/// Downscaled side for `side`, given the scale `s`.
fn scaled_side(side: u32, s: Binary32, largest: u32, max_dim: u32) -> (n: u32)
    requires
        s@ == preview_scale(largest as int, max_dim as int),
        s.mant <= SIG_HIGH,
        -0x1000 <= s.exp <= 0x1000,
    ensures
        n == downscaled_side(side as int, largest as int, max_dim as int),
{
    let v = round_to_u32(multiply(from_u32(side), s));
    if v < 1 {
        1
    } else {
        v
    }
}

/// Downscales (nearest neighbour) an RGBA buffer whose larger side exceeds
/// `max_dim`, for a preview that is shrunk on screen anyway; an image that
/// already fits, or an empty one, is returned as it is. The scale factor
/// `max_dim / largest side` and the coordinates are computed in single
/// precision. Never used for export.
pub fn downscale_for_preview(width: u32, height: u32, rgba: &[u8], max_dim: u32) -> (r: (
    u32,
    u32,
    Vec<u8>,
))
    requires
        fits_preview(width as int, height as int, max_dim as int) || downscale_fits(
            width as int,
            height as int,
            rgba@,
            max_dim as int,
        ),
    ensures
        fits_preview(width as int, height as int, max_dim as int) ==> r.0 == width && r.1 == height
            && r.2@ == rgba@,
        !fits_preview(width as int, height as int, max_dim as int) ==> {
            let l = largest_side(width as int, height as int);
            &&& r.0 == downscaled_side(width as int, l, max_dim as int)
            &&& r.1 == downscaled_side(height as int, l, max_dim as int)
            &&& r.2@.len() == r.0 * r.1 * 4
            &&& forall|p: int, k: int|
                0 <= p < r.0 * r.1 && 0 <= k < 4 ==> #[trigger] r.2@[4 * p + k] == rgba@[4
                    * source_pixel(p, r.0 as int, width as int, height as int, max_dim as int) + k]
        },
{
    let largest = if width > height {
        width
    } else {
        height
    };
    if largest <= max_dim || largest == 0 {
        return (width, height, vstd::slice::slice_to_vec(rgba));
    }
    let s = divide(from_u32(max_dim), from_u32(largest));
    let new_w = scaled_side(width, s, largest, max_dim);
    let new_h = scaled_side(height, s, largest, max_dim);
    let count = new_w as usize * new_h as usize;
    let mut out: Vec<u8> = Vec::new();
    let mut p: usize = 0;
    while p < count
        invariant
            count == new_w * new_h,
            new_w == downscaled_side(width as int, largest as int, max_dim as int),
            new_h == downscaled_side(height as int, largest as int, max_dim as int),
            new_w >= 1,
            new_h >= 1,
            largest == largest_side(width as int, height as int),
            largest >= 1,
            s@ == preview_scale(largest as int, max_dim as int),
            max_dim > 0 ==> s.mant > 0,
            s.mant <= SIG_HIGH,
            -0x1000 <= s.exp <= 0x1000,
            downscale_fits(width as int, height as int, rgba@, max_dim as int),
            p <= count,
            out@.len() == 4 * p,
            forall|q: int, k: int|
                0 <= q < p && 0 <= k < 4 ==> #[trigger] out@[4 * q + k] == rgba@[4 * source_pixel(
                    q,
                    new_w as int,
                    width as int,
                    height as int,
                    max_dim as int,
                ) + k],
        decreases count - p,
    {
        let x = (p % (new_w as usize)) as u32;
        let y = (p / (new_w as usize)) as u32;
        proof {
            assert(y < new_h) by (nonlinear_arith)
                requires
                    y == (p as int) / (new_w as int),
                    p < new_w * new_h,
                    new_w >= 1,
            ;
        }
        let sx = coord(x, s, largest, max_dim, width);
        let sy = coord(y, s, largest, max_dim, height);
        let ghost src = source_pixel(
            p as int,
            new_w as int,
            width as int,
            height as int,
            max_dim as int,
        );
        assert(sy * width + sx == src);
        assert(4 * src + 4 <= rgba@.len() && 4 * src <= u32::MAX);
        let i = 4 * (sy as usize * width as usize + sx as usize);
        out.push(rgba[i]);
        out.push(rgba[i + 1]);
        out.push(rgba[i + 2]);
        out.push(rgba[i + 3]);
        p += 1;
    }
    (new_w, new_h, out)
}

} // verus!
