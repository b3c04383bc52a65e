//! Procedural demo image shown at first launch, before any capture or
//! import: a light app window with a title bar, three window buttons, a
//! card, an accent block and a few lines of "text".

use vstd::prelude::*;
use vstd::arithmetic::power2::lemma2_to64;
use crate::binary32::{
    Binary32,
    from_u32,
    from_u32_value,
    lemma_scaled_by_fraction,
    lemma_scaled_nonnegative,
    multiply,
    product,
    trunc_to_u32,
    truncated,
};
use crate::model::RawImage;

verus! {

pub open spec fn opaque_color(r: u8, g: u8, b: u8) -> [u8; 4] {
    [r, g, b, 255u8]
}

/// A shape painted on the demo image.
pub enum Shape {
    /// Pixels with `x0 <= x < x1` and `y0 <= y < y1`.
    Rect { x0: int, x1: int, y0: int, y1: int },
    /// The 12 x 12 dot whose top-left corner is `(cx, cy)`: offsets
    /// `(dx, dy)` in `0..12` with `(dx - 6)^2 + (dy - 6)^2 <= 36`.
    Dot { cx: int, cy: int },
}

pub open spec fn in_shape(s: Shape, x: int, y: int) -> bool {
    match s {
        Shape::Rect { x0, x1, y0, y1 } => x0 <= x < x1 && y0 <= y < y1,
        Shape::Dot { cx, cy } => {
            let dx = x - cx;
            let dy = y - cy;
            0 <= dx < 12 && 0 <= dy < 12 && (dx - 6) * (dx - 6) + (dy - 6) * (dy - 6) <= 36
        },
    }
}

/// `0.12` in single precision: `16106127 * 2^-27`.
pub open spec fn twelve_percent() -> (int, int) {
    (16106127, -27)
}

/// `0.06` in single precision: `16106127 * 2^-28`.
pub open spec fn six_percent() -> (int, int) {
    (16106127, -28)
}

/// Height of the title bar: 12 % of the image height, computed in single
/// precision and rounded down.
pub open spec fn titlebar_height(height: int) -> int {
    truncated(product(from_u32_value(height), twelve_percent()))
}

/// Margin around the card: 6 % of the image width, computed in single
/// precision and rounded down.
pub open spec fn card_margin(width: int) -> int {
    truncated(product(from_u32_value(width), six_percent()))
}

/// The title bar fits in the image and four card margins fit across it.
proof fn lemma_margins_fit(width: u32, height: u32)
    ensures
        titlebar_height(height as int) <= height,
        4 * card_margin(width as int) <= width,
{
    lemma2_to64();
    lemma_scaled_by_fraction(height as int, 16106127, 27);
    lemma_scaled_by_fraction(width as int, 16106127, 28);
    let t = titlebar_height(height as int);
    let c = card_margin(width as int);
    assert(t <= height) by (nonlinear_arith)
        requires
            t * 0x800_0000 <= 4 * height * 16106127,
            height >= 0,
    ;
    assert(4 * c <= width) by (nonlinear_arith)
        requires
            c * 0x1000_0000 <= 4 * width * 16106127,
            width >= 0,
    ;
}

pub open spec fn min_int(a: int, b: int) -> int {
    if a < b { a } else { b }
}

pub open spec fn sub_or_zero(a: int, b: int) -> int {
    if a < b { 0 } else { a - b }
}

/// Top row of text line `line` (0 to 4).
pub open spec fn text_line_top(width: int, height: int, line: int) -> int {
    titlebar_height(height) + 2 * card_margin(width) + 48 + line * 20
}

/// A text line is drawn only when it ends above the bottom of the image.
pub open spec fn text_line_drawn(width: int, height: int, line: int) -> bool {
    text_line_top(width, height, line) + 8 < height
}

/// Layer `j` of the demo image, in painting order: background, title bar,
/// red, yellow and green window buttons, card, accent block, then five
/// text lines, each shorter than the previous one (a line that does not
/// fit is empty, and so is every line after it).
pub open spec fn layer(width: int, height: int, j: int) -> (Shape, [u8; 4]) {
    let th = titlebar_height(height);
    let cm = card_margin(width);
    let card_top = th + cm;
    let bx = 2 * cm;
    let by = card_top + cm;
    let bw = width - 4 * cm;
    if j == 0 {
        (Shape::Rect { x0: 0, x1: width, y0: 0, y1: height }, opaque_color(246, 246, 248))
    } else if j == 1 {
        (Shape::Rect { x0: 0, x1: width, y0: 0, y1: th }, opaque_color(225, 226, 230))
    } else if j == 2 {
        (Shape::Dot { cx: 20, cy: th / 2 }, opaque_color(255, 95, 86))
    } else if j == 3 {
        (Shape::Dot { cx: 44, cy: th / 2 }, opaque_color(255, 189, 46))
    } else if j == 4 {
        (Shape::Dot { cx: 68, cy: th / 2 }, opaque_color(39, 201, 63))
    } else if j == 5 {
        (
            Shape::Rect {
                x0: cm,
                x1: sub_or_zero(width, cm),
                y0: card_top,
                y1: sub_or_zero(height, cm),
            },
            opaque_color(255, 255, 255),
        )
    } else if j == 6 {
        (
            Shape::Rect {
                x0: bx,
                x1: min_int(bx + bw, width),
                y0: by,
                y1: min_int(by + 24, height),
            },
            opaque_color(99, 102, 241),
        )
    } else {
        let line = j - 7;
        let top = text_line_top(width, height, line);
        let drawn = forall|l: int| 0 <= l <= line ==> #[trigger] text_line_drawn(width, height, l);
        (
            Shape::Rect {
                x0: bx,
                x1: min_int(bx + sub_or_zero(bw, line * 40), width),
                y0: top,
                y1: if drawn { top + 8 } else { top },
            },
            opaque_color(200, 202, 208),
        )
    }
}

/// Colour of pixel `(x, y)` once the first `n` layers are painted (the
/// buffer starts all zero).
pub open spec fn color_after(width: int, height: int, n: int, x: int, y: int) -> [u8; 4]
    decreases n,
{
    if n <= 0 {
        [0u8, 0u8, 0u8, 0u8]
    } else if in_shape(layer(width, height, n - 1).0, x, y) {
        layer(width, height, n - 1).1
    } else {
        color_after(width, height, n - 1, x, y)
    }
}

/// Colour of pixel `(x, y)` of the demo image.
pub open spec fn demo_color(width: int, height: int, x: int, y: int) -> [u8; 4] {
    color_after(width, height, 12, x, y)
}

/// The pixels of a `width x height` RGBA buffer all have the colour that
/// `color_after(.., n, ..)` gives them.
pub open spec fn painted(pixels: Seq<u8>, width: int, height: int, n: int) -> bool {
    &&& pixels.len() == width * height * 4
    &&& forall|p: int, k: int|
        0 <= p < width * height && 0 <= k < 4 ==> #[trigger] pixels[4 * p + k] == color_after(
            width,
            height,
            n,
            p % width,
            p / width,
        )[k]
}

proof fn lemma_pixel_coords(x: int, y: int, width: int)
    requires
        0 <= x < width,
        0 <= y,
    ensures
        (y * width + x) % width == x,
        (y * width + x) / width == y,
{
    vstd::arithmetic::div_mod::lemma_fundamental_div_mod_converse(y * width + x, width, y, x);
}

proof fn lemma_pixel_index_bound(x: int, y: int, width: int, height: int)
    requires
        0 <= x < width,
        0 <= y < height,
    ensures
        0 <= y * width + x < width * height,
{
    assert(y * width + x < width * height) by (nonlinear_arith)
        requires
            0 <= x < width,
            0 <= y < height,
    ;
    assert(0 <= y * width) by (nonlinear_arith)
        requires
            0 <= y,
            0 <= width,
    ;
}

proof fn lemma_coords_in_image(p: int, width: int, height: int)
    requires
        0 <= p < width * height,
        width > 0,
    ensures
        0 <= p % width < width,
        0 <= p / width < height,
{
    vstd::arithmetic::div_mod::lemma_fundamental_div_mod(p, width);
    assert(p / width < height) by (nonlinear_arith)
        requires
            p == width * (p / width) + p % width,
            0 <= p % width,
            p < width * height,
            width > 0,
    ;
}

/// Paints pixel `(x, y)` with `color` when it lies in the image.
fn set_pixel(pixels: &mut Vec<u8>, width: u32, height: u32, x: u32, y: u32, color: [u8; 4])
    requires
        old(pixels)@.len() == width * height * 4,
        width * height * 4 <= u32::MAX,
    ensures
        final(pixels)@.len() == old(pixels)@.len(),
        forall|p: int, k: int|
            0 <= p < width * height && 0 <= k < 4 ==> #[trigger] final(pixels)@[4 * p + k] == if x
                < width && y < height && p == y * width + x {
                color[k]
            } else {
                old(pixels)@[4 * p + k]
            },
{
    if x < width && y < height {
        proof {
            lemma_pixel_index_bound(x as int, y as int, width as int, height as int);
        }
        let i = ((y * width + x) * 4) as usize;
        pixels.set(i, color[0]);
        pixels.set(i + 1, color[1]);
        pixels.set(i + 2, color[2]);
        pixels.set(i + 3, color[3]);
    }
}

/// Paints the pixels of `x0..x1` by `y0..y1` with `color`.
fn fill_rect(
    pixels: &mut Vec<u8>,
    width: u32,
    height: u32,
    x0: u32,
    x1: u32,
    y0: u32,
    y1: u32,
    color: [u8; 4],
)
    requires
        old(pixels)@.len() == width * height * 4,
        width * height * 4 <= u32::MAX,
        x1 <= width,
        y1 <= height,
    ensures
        final(pixels)@.len() == old(pixels)@.len(),
        forall|p: int, k: int|
            0 <= p < width * height && 0 <= k < 4 ==> #[trigger] final(pixels)@[4 * p + k] == if in_shape(
                Shape::Rect { x0: x0 as int, x1: x1 as int, y0: y0 as int, y1: y1 as int },
                p % (width as int),
                p / (width as int),
            ) {
                color[k]
            } else {
                old(pixels)@[4 * p + k]
            },
{
    let ghost before = pixels@;
    let mut y = y0;
    while y < y1
        invariant
            before.len() == width * height * 4,
            pixels@.len() == before.len(),
            width * height * 4 <= u32::MAX,
            x1 <= width,
            y1 <= height,
            y0 <= y0,
            y0 >= y1 ==> y == y0,
            y0 < y1 ==> y0 <= y <= y1,
            forall|p: int, k: int|
                0 <= p < width * height && 0 <= k < 4 ==> #[trigger] pixels@[4 * p + k] == if x0
                    <= p % (width as int) < x1 && y0 <= p / (width as int) < y {
                    color[k]
                } else {
                    before[4 * p + k]
                },
        decreases y1 - y,
    {
        let ghost row_start = pixels@;
        let mut x = x0;
        while x < x1
            invariant
                before.len() == width * height * 4,
                pixels@.len() == before.len(),
                width * height * 4 <= u32::MAX,
                x1 <= width,
                y < y1,
                y1 <= height,
                x0 >= x1 ==> x == x0,
                x0 < x1 ==> x0 <= x <= x1,
                forall|p: int, k: int|
                    0 <= p < width * height && 0 <= k < 4 ==> #[trigger] pixels@[4 * p + k] == if x0
                        <= p % (width as int) < x1 && (y0 <= p / (width as int) < y || (p / (
                    width as int) == y && p % (width as int) < x)) {
                        color[k]
                    } else {
                        before[4 * p + k]
                    },
            decreases x1 - x,
        {
            let ghost prev = pixels@;
            set_pixel(pixels, width, height, x, y, color);
            proof {
                lemma_pixel_coords(x as int, y as int, width as int);
                assert forall|p: int, k: int|
                    0 <= p < width * height && 0 <= k < 4 implies #[trigger] pixels@[4 * p + k]
                        == if x0 <= p % (width as int) < x1 && (y0 <= p / (width as int) < y || (p
                        / (width as int) == y && p % (width as int) < x + 1)) {
                        color[k]
                    } else {
                        before[4 * p + k]
                    } by {
                    if p == y * width + x {
                    } else {
                        assert(prev[4 * p + k] == pixels@[4 * p + k]);
                        if p / (width as int) == y && p % (width as int) == x {
                            vstd::arithmetic::div_mod::lemma_fundamental_div_mod(p, width as int);
                        }
                    }
                }
            }
            x += 1;
        }
        y += 1;
    }
}

/// Paints the 12 x 12 dot whose top-left corner is `(cx, cy)` with
/// `color` (the parts outside the image are skipped).
fn fill_dot(pixels: &mut Vec<u8>, width: u32, height: u32, cx: u32, cy: u32, color: [u8; 4])
    requires
        old(pixels)@.len() == width * height * 4,
        width * height * 4 <= u32::MAX,
        cx <= 1000,
        cy <= u32::MAX - 12,
    ensures
        final(pixels)@.len() == old(pixels)@.len(),
        forall|p: int, k: int|
            0 <= p < width * height && 0 <= k < 4 ==> #[trigger] final(pixels)@[4 * p + k] == if in_shape(
                Shape::Dot { cx: cx as int, cy: cy as int },
                p % (width as int),
                p / (width as int),
            ) {
                color[k]
            } else {
                old(pixels)@[4 * p + k]
            },
{
    let ghost before = pixels@;
    let mut dy: u32 = 0;
    while dy < 12
        invariant
            before.len() == width * height * 4,
            pixels@.len() == before.len(),
            width * height * 4 <= u32::MAX,
            cx <= 1000,
            cy <= u32::MAX - 12,
            dy <= 12,
            forall|p: int, k: int|
                0 <= p < width * height && 0 <= k < 4 ==> #[trigger] pixels@[4 * p + k] == if in_shape(
                    Shape::Dot { cx: cx as int, cy: cy as int },
                    p % (width as int),
                    p / (width as int),
                ) && p / (width as int) < cy + dy {
                    color[k]
                } else {
                    before[4 * p + k]
                },
        decreases 12 - dy,
    {
        let mut dx: u32 = 0;
        while dx < 12
            invariant
                before.len() == width * height * 4,
                pixels@.len() == before.len(),
                width * height * 4 <= u32::MAX,
                cx <= 1000,
                cy <= u32::MAX - 12,
                dy < 12,
                dx <= 12,
                forall|p: int, k: int|
                    0 <= p < width * height && 0 <= k < 4 ==> #[trigger] pixels@[4 * p + k] == if in_shape(
                        Shape::Dot { cx: cx as int, cy: cy as int },
                        p % (width as int),
                        p / (width as int),
                    ) && (p / (width as int) < cy + dy || (p / (width as int) == cy + dy && p % (
                    width as int) < cx + dx)) {
                        color[k]
                    } else {
                        before[4 * p + k]
                    },
            decreases 12 - dx,
        {
            let ghost prev = pixels@;
            let ox: u32 = if dx >= 6 { dx - 6 } else { 6 - dx };
            let oy: u32 = if dy >= 6 { dy - 6 } else { 6 - dy };
            assert(ox * ox <= 36 && oy * oy <= 36) by (nonlinear_arith)
                requires
                    ox <= 6,
                    oy <= 6,
            ;
            assert(ox * ox == (dx - 6) * (dx - 6) && oy * oy == (dy - 6) * (dy - 6)) by (nonlinear_arith)
                requires
                    ox == dx - 6 || ox == 6 - dx,
                    oy == dy - 6 || oy == 6 - dy,
            ;
            let inside = ox * ox + oy * oy <= 36;
            if inside {
                set_pixel(pixels, width, height, cx + dx, cy + dy, color);
            }
            proof {
                let x = cx + dx;
                let y = cy + dy;
                assert forall|p: int, k: int|
                    0 <= p < width * height && 0 <= k < 4 implies #[trigger] pixels@[4 * p + k]
                        == if in_shape(
                        Shape::Dot { cx: cx as int, cy: cy as int },
                        p % (width as int),
                        p / (width as int),
                    ) && (p / (width as int) < cy + dy || (p / (width as int) == cy + dy && p % (
                    width as int) < cx + dx + 1)) {
                        color[k]
                    } else {
                        before[4 * p + k]
                    } by {
                    vstd::arithmetic::div_mod::lemma_fundamental_div_mod(p, width as int);
                    if p % (width as int) == x && p / (width as int) == y {
                        lemma_coords_in_image(p, width as int, height as int);
                        let q = p / (width as int);
                        let r = p % (width as int);
                        assert(p == y * width + x) by (nonlinear_arith)
                            requires
                                p == width * q + r,
                                q == y,
                                r == x,
                        ;
                    } else if inside && x < width && y < height && p == y * width + x {
                        lemma_pixel_coords(x as int, y as int, width as int);
                    } else {
                        assert(prev[4 * p + k] == pixels@[4 * p + k]);
                    }
                }
            }
            dx += 1;
        }
        dy += 1;
    }
}

proof fn lemma_paint_step(
    before: Seq<u8>,
    after: Seq<u8>,
    width: int,
    height: int,
    n: int,
    shape: Shape,
    color: [u8; 4],
)
    requires
        0 <= n,
        painted(before, width, height, n),
        shape == layer(width, height, n).0,
        color == layer(width, height, n).1,
        after.len() == before.len(),
        forall|p: int, k: int|
            0 <= p < width * height && 0 <= k < 4 ==> #[trigger] after[4 * p + k] == if in_shape(
                shape,
                p % width,
                p / width,
            ) {
                color[k]
            } else {
                before[4 * p + k]
            },
    ensures
        painted(after, width, height, n + 1),
{
    assert forall|p: int, k: int| 0 <= p < width * height && 0 <= k < 4 implies #[trigger] after[4
        * p + k] == color_after(width, height, n + 1, p % width, p / width)[k] by {
        assert(before[4 * p + k] == color_after(width, height, n, p % width, p / width)[k]);
    }
}

proof fn lemma_undrawn_lines_are_empty(width: int, height: int, line: int, n: int, x: int, y: int)
    requires
        0 <= line < 5,
        !text_line_drawn(width, height, line),
        7 + line <= n <= 12,
    ensures
        color_after(width, height, n, x, y) == color_after(width, height, 7 + line, x, y),
    decreases n,
{
    if n > 7 + line {
        lemma_undrawn_lines_are_empty(width, height, line, n - 1, x, y);
        let l2 = n - 8;
        assert(!(forall|l: int| 0 <= l <= l2 ==> #[trigger] text_line_drawn(width, height, l)));
    }
}

/// Generates the `width x height` demo image: light background, title bar
/// of 12 % of the height with three window buttons, a white card inset by
/// 6 % of the width, an indigo accent block and up to five grey text lines
/// (see `layer` for the exact geometry).
pub fn generate(width: u32, height: u32) -> (img: RawImage)
    requires
        width * height * 4 <= u32::MAX,
    ensures
        img.width == width,
        img.height == height,
        img.pixels@.len() == width * height * 4,
        forall|p: int, k: int|
            0 <= p < width * height && 0 <= k < 4 ==> #[trigger] img.pixels@[4 * p + k]
                == demo_color(width as int, height as int, p % (width as int), p / (width as int))[k],
{
    let ghost w = width as int;
    let ghost h = height as int;
    let total = (width * height * 4) as usize;
    let mut pixels: Vec<u8> = Vec::new();
    let mut z: usize = 0;
    while z < total
        invariant
            total == width * height * 4,
            z <= total,
            pixels@.len() == z,
            forall|i: int| 0 <= i < z ==> pixels@[i] == 0,
        decreases total - z,
    {
        pixels.push(0);
        z += 1;
    }
    assert(painted(pixels@, w, h, 0));

    let ghost s0 = pixels@;
    fill_rect(&mut pixels, width, height, 0, width, 0, height, [246, 246, 248, 255]);
    proof { lemma_paint_step(s0, pixels@, w, h, 0, layer(w, h, 0).0, layer(w, h, 0).1); }

    proof {
        lemma_margins_fit(width, height);
    }
    let titlebar_h = trunc_to_u32(multiply(from_u32(height), Binary32 { mant: 16106127, exp: -27 }));
    assert(titlebar_h == titlebar_height(h));
    let ghost s1 = pixels@;
    fill_rect(&mut pixels, width, height, 0, width, 0, titlebar_h, [225, 226, 230, 255]);
    proof { lemma_paint_step(s1, pixels@, w, h, 1, layer(w, h, 1).0, layer(w, h, 1).1); }

    let cy = titlebar_h / 2;
    let ghost s2 = pixels@;
    fill_dot(&mut pixels, width, height, 20, cy, [255, 95, 86, 255]);
    proof { lemma_paint_step(s2, pixels@, w, h, 2, layer(w, h, 2).0, layer(w, h, 2).1); }
    let ghost s3 = pixels@;
    fill_dot(&mut pixels, width, height, 44, cy, [255, 189, 46, 255]);
    proof { lemma_paint_step(s3, pixels@, w, h, 3, layer(w, h, 3).0, layer(w, h, 3).1); }
    let ghost s4 = pixels@;
    fill_dot(&mut pixels, width, height, 68, cy, [39, 201, 63, 255]);
    proof { lemma_paint_step(s4, pixels@, w, h, 4, layer(w, h, 4).0, layer(w, h, 4).1); }

    let card_margin_px = trunc_to_u32(multiply(from_u32(width), Binary32 { mant: 16106127, exp: -28 }));
    assert(card_margin_px == card_margin(w));
    assert(titlebar_h + 2 * card_margin_px <= u32::MAX) by (nonlinear_arith)
        requires
            titlebar_h <= height,
            4 * card_margin_px <= width,
            width * height * 4 <= u32::MAX,
    ;
    let card_top = titlebar_h + card_margin_px;
    let card_right = if width < card_margin_px { 0 } else { width - card_margin_px };
    let card_bottom = if height < card_margin_px { 0 } else { height - card_margin_px };
    let ghost s5 = pixels@;
    fill_rect(
        &mut pixels,
        width,
        height,
        card_margin_px,
        card_right,
        card_top,
        card_bottom,
        [255, 255, 255, 255],
    );
    proof { lemma_paint_step(s5, pixels@, w, h, 5, layer(w, h, 5).0, layer(w, h, 5).1); }

    let block_x = card_margin_px + card_margin_px;
    let block_y = card_top + card_margin_px;
    let block_w = width - 2 * card_margin_px - 2 * card_margin_px;
    let accent_right = if block_x + block_w < width { block_x + block_w } else { width };
    let accent_bottom = if (block_y as u64) + 24 < height as u64 { block_y + 24 } else { height };
    let ghost s6 = pixels@;
    fill_rect(
        &mut pixels,
        width,
        height,
        block_x,
        accent_right,
        block_y,
        accent_bottom,
        [99, 102, 241, 255],
    );
    proof { lemma_paint_step(s6, pixels@, w, h, 6, layer(w, h, 6).0, layer(w, h, 6).1); }

    let mut line: u32 = 0;
    while line < 5
        invariant
            w == width,
            h == height,
            width * height * 4 <= u32::MAX,
            line <= 5,
            painted(pixels@, w, h, 7 + line),
            forall|l: int| 0 <= l < line ==> #[trigger] text_line_drawn(w, h, l),
            block_x == 2 * card_margin(w),
            block_y == titlebar_height(h) + 2 * card_margin(w),
            block_w == w - 4 * card_margin(w),
            block_x + block_w <= width,
        ensures
            painted(pixels@, w, h, 12),
        decreases 5 - line,
    {
        let ly = block_y as u64 + 48 + line as u64 * 20;
        assert(ly == text_line_top(w, h, line as int));
        if ly + 8 >= height as u64 {
            proof {
                assert forall|p: int, k: int|
                    0 <= p < w * h && 0 <= k < 4 implies #[trigger] pixels@[4 * p + k] == color_after(
                        w,
                        h,
                        12,
                        p % w,
                        p / w,
                    )[k] by {
                    lemma_undrawn_lines_are_empty(w, h, line as int, 12, p % w, p / w);
                }
            }
            break;
        }
        let line_w = if block_w < line * 40 { 0 } else { block_w - line * 40 };
        let line_right = if block_x + line_w < width { block_x + line_w } else { width };
        let ghost before = pixels@;
        fill_rect(
            &mut pixels,
            width,
            height,
            block_x,
            line_right,
            ly as u32,
            (ly + 8) as u32,
            [200, 202, 208, 255],
        );
        proof {
            assert(forall|l: int| 0 <= l <= line ==> #[trigger] text_line_drawn(w, h, l));
            lemma_paint_step(
                before,
                pixels@,
                w,
                h,
                7 + line,
                layer(w, h, 7 + line).0,
                layer(w, h, 7 + line).1,
            );
        }
        line += 1;
    }
    RawImage { width, height, pixels }
}

/// Every pixel of the demo image is opaque: the background layer covers the
/// whole image and every later layer paints an opaque colour.
pub proof fn lemma_demo_image_opaque(width: int, height: int, x: int, y: int)
    requires
        0 <= x < width,
        0 <= y < height,
    ensures
        demo_color(width, height, x, y)[3] == 255,
{
    lemma_layers_opaque(width, height, 12, x, y);
}

proof fn lemma_layers_opaque(width: int, height: int, n: int, x: int, y: int)
    requires
        0 <= x < width,
        0 <= y < height,
        1 <= n <= 12,
    ensures
        color_after(width, height, n, x, y)[3] == 255,
    decreases n,
{
    if n > 1 {
        lemma_layers_opaque(width, height, n - 1, x, y);
    }
}

/// The colour of a pixel is that of the last layer covering it.
proof fn lemma_top_layer(width: int, height: int, n: int, j: int, x: int, y: int)
    requires
        0 <= j < n <= 12,
        in_shape(layer(width, height, j).0, x, y),
        forall|i: int| j < i < n ==> !in_shape(#[trigger] layer(width, height, i).0, x, y),
    ensures
        color_after(width, height, n, x, y) == layer(width, height, j).1,
    decreases n,
{
    if n > j + 1 {
        lemma_top_layer(width, height, n - 1, j, x, y);
    }
}

/// The card is inset by the card margin on both sides: below the title bar
/// (and clear of the window buttons), every pixel closer than the card
/// margin to the left or to the right edge keeps the background grey.
pub proof fn lemma_card_side_margins(width: u32, height: u32, x: int, y: int)
    requires
        0 <= x < width,
        0 <= y < height,
        y >= titlebar_height(height as int),
        y >= titlebar_height(height as int) / 2 + 12,
        x < card_margin(width as int) || x >= width - card_margin(width as int),
    ensures
        demo_color(width as int, height as int, x, y) == [246u8, 246u8, 248u8, 255u8],
{
    let w = width as int;
    let h = height as int;
    lemma_margins_fit(width, height);
    lemma_scaled_nonnegative(w, six_percent());
    let cm = card_margin(w);
    assert(0 <= cm && 4 * cm <= w);
    assert forall|j: int| 1 <= j < 12 implies !in_shape(#[trigger] layer(w, h, j).0, x, y) by {
        if j >= 7 {
            let bw = w - 4 * cm;
            assert(sub_or_zero(bw, (j - 7) * 40) <= bw);
        }
    }
    lemma_top_layer(w, h, 12, 0, x, y);
}

/// The title bar spans the whole width: right of the window buttons, every
/// pixel above the bottom of the title bar is its light grey.
pub proof fn lemma_title_bar_spans_width(width: u32, height: u32, x: int, y: int)
    requires
        80 <= x < width,
        0 <= y < height,
        y < titlebar_height(height as int),
    ensures
        demo_color(width as int, height as int, x, y) == [225u8, 226u8, 230u8, 255u8],
{
    let w = width as int;
    let h = height as int;
    lemma_scaled_nonnegative(w, six_percent());
    assert forall|j: int| 1 < j < 12 implies !in_shape(#[trigger] layer(w, h, j).0, x, y) by {}
    lemma_top_layer(w, h, 12, 1, x, y);
}

/// The three window buttons sit in the title bar, left to right red,
/// yellow and green: the centre of each (6 pixels right of x = 20, 44 and
/// 68, 6 pixels below half the title bar) has its colour, as long as it
/// lies in the title bar and in the image.
pub proof fn lemma_window_buttons(width: u32, height: u32)
    requires
        width > 74,
        titlebar_height(height as int) / 2 + 6 < titlebar_height(height as int),
    ensures
        ({
            let y = titlebar_height(height as int) / 2 + 6;
            &&& demo_color(width as int, height as int, 26, y) == [255u8, 95u8, 86u8, 255u8]
            &&& demo_color(width as int, height as int, 50, y) == [255u8, 189u8, 46u8, 255u8]
            &&& demo_color(width as int, height as int, 74, y) == [39u8, 201u8, 63u8, 255u8]
        }),
{
    let w = width as int;
    let h = height as int;
    let y = titlebar_height(h) / 2 + 6;
    lemma_scaled_nonnegative(w, six_percent());
    assert forall|j: int| 2 < j < 12 implies !in_shape(#[trigger] layer(w, h, j).0, 26, y) by {}
    lemma_top_layer(w, h, 12, 2, 26, y);
    assert forall|j: int| 3 < j < 12 implies !in_shape(#[trigger] layer(w, h, j).0, 50, y) by {}
    lemma_top_layer(w, h, 12, 3, 50, y);
    assert forall|j: int| 4 < j < 12 implies !in_shape(#[trigger] layer(w, h, j).0, 74, y) by {}
    lemma_top_layer(w, h, 12, 4, 74, y);
}

} // verus!
