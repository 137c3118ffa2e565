use crate::random::{weight_sum, weighted_index};
use crate::rect::Rectangle;
use vstd::prelude::*;

verus! {

/// An RGB colour.
#[derive(Clone, Copy, Debug, PartialEq, Eq, Structural)]
pub struct Color {
    pub r: u8,
    pub g: u8,
    pub b: u8,
}

pub open spec fn black() -> Color {
    Color { r: 0, g: 0, b: 0 }
}

/// A `width` by `height` grid of colours, stored row by row.
pub struct PixelBuffer {
    pub width: u32,
    pub height: u32,
    pub pixels: Vec<Color>,
}

/// Whether a pixel of `r` lies in one of its four border bands of
/// `border` pixels. When `r` is narrower than two borders, every pixel does.
pub open spec fn on_border(r: Rectangle, border: u32, px: int, py: int) -> bool {
    ||| px < r.x + border
    ||| px >= r.x + r.width - border
    ||| py < r.y + border
    ||| py >= r.y + r.height - border
}

/// The colour a pixel of leaf `r` gets: black in the border, `color` inside.
pub open spec fn leaf_pixel(r: Rectangle, color: Color, border: u32, px: int, py: int) -> Color {
    if on_border(r, border, px, py) {
        black()
    } else {
        color
    }
}

/// The colour of a pixel after the first `n` leaves were painted in order,
/// starting from `base`.
pub open spec fn painted_pixel(
    base: Color,
    leaves: Seq<Rectangle>,
    colors: Seq<Color>,
    border: u32,
    n: int,
    px: int,
    py: int,
) -> Color
    decreases n,
{
    if n <= 0 {
        base
    } else if leaves[n - 1].contains(px, py) {
        leaf_pixel(leaves[n - 1], colors[n - 1], border, px, py)
    } else {
        painted_pixel(base, leaves, colors, border, n - 1, px, py)
    }
}

/// The colours picked from `palette` by the indices `choices`.
pub open spec fn chosen_colors(palette: Seq<Color>, choices: Seq<usize>) -> Seq<Color> {
    Seq::new(choices.len(), |i: int| palette[choices[i] as int])
}

/// Weights that can be sampled from: at least one, with a positive total that fits in a `u32`.
pub open spec fn weights_ok(weights: Seq<u32>) -> bool {
    weights.len() > 0 && 0 < weight_sum(weights) <= u32::MAX
}

proof fn lemma_index(w: int, h: int, px: int, py: int)
    requires
        0 <= px < w,
        0 <= py < h,
    ensures
        0 <= py * w + px < w * h,
{
    assert(0 <= py * w) by (nonlinear_arith)
        requires
            0 <= py,
            0 <= w,
    ;
    assert((py + 1) * w <= h * w) by (nonlinear_arith)
        requires
            py + 1 <= h,
            0 <= w,
    ;
    assert((py + 1) * w == py * w + w) by (nonlinear_arith);
    assert(h * w == w * h) by (nonlinear_arith);
}

proof fn lemma_index_injective(w: int, px: int, py: int, qx: int, qy: int)
    requires
        0 <= px < w,
        0 <= qx < w,
        0 <= py,
        0 <= qy,
        py * w + px == qy * w + qx,
    ensures
        px == qx,
        py == qy,
{
    if py < qy {
        assert((py + 1) * w <= qy * w) by (nonlinear_arith)
            requires
                py + 1 <= qy,
                0 <= w,
        ;
        assert((py + 1) * w == py * w + w) by (nonlinear_arith);
    } else if qy < py {
        assert((qy + 1) * w <= py * w) by (nonlinear_arith)
            requires
                qy + 1 <= py,
                0 <= w,
        ;
        assert((qy + 1) * w == qy * w + w) by (nonlinear_arith);
    }
}

impl PixelBuffer {
    pub open spec fn wf(self) -> bool {
        self.pixels.len() == self.width * self.height
    }

    pub open spec fn in_canvas(self, px: int, py: int) -> bool {
        0 <= px < self.width && 0 <= py < self.height
    }

    pub open spec fn at(self, px: int, py: int) -> Color {
        self.pixels@[py * self.width + px]
    }

    /// Whether a rectangle lies inside the canvas.
    pub open spec fn holds(self, r: Rectangle) -> bool {
        r.x + r.width <= self.width && r.y + r.height <= self.height
    }

    /// An all-black canvas.
    pub fn new(width: u32, height: u32) -> (r: Self)
        requires
            width * height <= usize::MAX,
        ensures
            r.width == width,
            r.height == height,
            r.wf(),
            forall|px: int, py: int| r.in_canvas(px, py) ==> #[trigger] r.at(px, py) == black(),
    {
        let n = width as usize * height as usize;
        let mut pixels: Vec<Color> = Vec::new();
        let mut i: usize = 0;
        while i < n
            invariant
                n == width * height,
                i <= n,
                pixels.len() == i,
                forall|j: int| 0 <= j < i ==> pixels@[j] == black(),
            decreases n - i,
        {
            pixels.push(Color { r: 0, g: 0, b: 0 });
            i += 1;
        }
        let r = PixelBuffer { width, height, pixels };
        assert forall|px: int, py: int| r.in_canvas(px, py) implies #[trigger] r.at(px, py)
            == black() by {
            lemma_index(width as int, height as int, px, py);
        }
        r
    }

    /// The colour of one pixel.
    pub fn get(&self, px: u32, py: u32) -> (c: Color)
        requires
            self.wf(),
            px < self.width,
            py < self.height,
        ensures
            c == self.at(px as int, py as int),
    {
        proof {
            lemma_index(self.width as int, self.height as int, px as int, py as int);
        }
        self.pixels[py as usize * self.width as usize + px as usize]
    }
}

/// The border width for a canvas: a thousandth of its longer side.
pub fn border_width(width: u32, height: u32) -> (b: u32)
    ensures
        b == (if width >= height {
            width
        } else {
            height
        }) / 1000,
{
    if width >= height {
        width / 1000
    } else {
        height / 1000
    }
}

proof fn lemma_weight_sum_prefix(s: Seq<u32>, i: int)
    requires
        0 <= i <= s.len(),
    ensures
        weight_sum(s.subrange(0, i)) <= weight_sum(s),
    decreases s.len() - i,
{
    if i < s.len() {
        lemma_weight_sum_prefix(s, i + 1);
        assert(s.subrange(0, i + 1).drop_last() =~= s.subrange(0, i));
    } else {
        assert(s.subrange(0, i) =~= s);
    }
}

/// Whether the weights can be sampled from.
pub fn weights_valid(weights: &Vec<u32>) -> (ok: bool)
    ensures
        ok == weights_ok(weights@),
{
    let mut sum: u64 = 0;
    let mut i: usize = 0;
    while i < weights.len()
        invariant
            i <= weights.len(),
            sum == weight_sum(weights@.subrange(0, i as int)),
            sum <= u32::MAX,
        decreases weights.len() - i,
    {
        assert(weights@.subrange(0, i + 1).drop_last() =~= weights@.subrange(0, i as int));
        sum = sum + weights[i] as u64;
        if sum > u32::MAX as u64 {
            proof {
                lemma_weight_sum_prefix(weights@, i + 1);
            }
            return false;
        }
        i += 1;
    }
    assert(weights@.subrange(0, i as int) =~= weights@);
    weights.len() > 0 && sum > 0
}

/// Draws a palette index with probability proportional to its weight, or
/// `None` when the weights cannot be sampled from.
pub fn sample_weighted(weights: &Vec<u32>) -> (r: Option<usize>)
    ensures
        r is Some <==> weights_ok(weights@),
        r matches Some(k) ==> k < weights.len() && weights[k as int] > 0,
{
    if weights_valid(weights) {
        Some(weighted_index(weights))
    } else {
        None
    }
}

/// A leaf narrower or shorter than two borders has no interior: every one of
/// its pixels is border, and so painted black.
pub proof fn narrow_leaf_all_border(r: Rectangle, color: Color, border: u32, px: int, py: int)
    requires
        r.contains(px, py),
        r.width < 2 * border || r.height < 2 * border,
    ensures
        on_border(r, border, px, py),
        leaf_pixel(r, color, border, px, py) == black(),
{
}

/// In a painted leaf, the four border bands are black, and every pixel
/// outside them has the leaf's colour.
pub proof fn painted_leaf_bands(r: Rectangle, color: Color, border: u32, px: int, py: int)
    requires
        r.contains(px, py),
    ensures
        (px < r.x + border || px >= r.x + r.width - border || py < r.y + border || py >= r.y
            + r.height - border) ==> leaf_pixel(r, color, border, px, py) == black(),
        (r.x + border <= px < r.x + r.width - border && r.y + border <= py < r.y + r.height
            - border) ==> leaf_pixel(r, color, border, px, py) == color,
{
}

/// Paints one leaf: its border bands black and the rest of it `color`.
/// Pixels outside the leaf keep their colour.
pub fn paint_leaf(buf: &mut PixelBuffer, r: Rectangle, color: Color, border: u32)
    requires
        old(buf).wf(),
        r.wf(),
        old(buf).holds(r),
    ensures
        final(buf).width == old(buf).width,
        final(buf).height == old(buf).height,
        final(buf).wf(),
        forall|px: int, py: int|
            final(buf).in_canvas(px, py) ==> #[trigger] final(buf).at(px, py) == if r.contains(
                px,
                py,
            ) {
                leaf_pixel(r, color, border, px, py)
            } else {
                old(buf).at(px, py)
            },
{
    let ghost before = *buf;
    let w = buf.width;
    let x_end = r.x + r.width;
    let y_end = r.y + r.height;
    let mut y = r.y;
    while y < y_end
        invariant
            buf.width == before.width,
            buf.height == before.height,
            buf.wf(),
            before.wf(),
            w == before.width,
            r.wf(),
            before.holds(r),
            x_end == r.x + r.width,
            y_end == r.y + r.height,
            r.y <= y <= y_end,
            forall|px: int, py: int|
                buf.in_canvas(px, py) ==> #[trigger] buf.at(px, py) == if r.contains(px, py) && py
                    < y {
                    leaf_pixel(r, color, border, px, py)
                } else {
                    before.at(px, py)
                },
        decreases y_end - y,
    {
        let mut x = r.x;
        while x < x_end
            invariant
                buf.width == before.width,
                buf.height == before.height,
                buf.wf(),
                before.wf(),
                w == before.width,
                r.wf(),
                before.holds(r),
                x_end == r.x + r.width,
                y_end == r.y + r.height,
                r.y <= y < y_end,
                r.x <= x <= x_end,
                forall|px: int, py: int|
                    buf.in_canvas(px, py) ==> #[trigger] buf.at(px, py) == if r.contains(px, py) && (
                    py < y || (py == y && px < x)) {
                        leaf_pixel(r, color, border, px, py)
                    } else {
                        before.at(px, py)
                    },
            decreases x_end - x,
        {
            let b = border as u64;
            let in_border = (x as u64) < r.x as u64 + b || x as u64 + b >= x_end as u64 || (y as u64)
                < r.y as u64 + b || y as u64 + b >= y_end as u64;
            let c = if in_border {
                Color { r: 0, g: 0, b: 0 }
            } else {
                color
            };
            proof {
                lemma_index(w as int, buf.height as int, x as int, y as int);
            }
            let idx = y as usize * w as usize + x as usize;
            let ghost prev = *buf;
            buf.pixels.set(idx, c);
            proof {
                assert forall|px: int, py: int| buf.in_canvas(px, py) implies #[trigger] buf.at(
                    px,
                    py,
                ) == if r.contains(px, py) && (py < y || (py == y && px < x + 1)) {
                    leaf_pixel(r, color, border, px, py)
                } else {
                    before.at(px, py)
                } by {
                    lemma_index(w as int, buf.height as int, px, py);
                    assert(prev.in_canvas(px, py));
                    assert(buf.pixels@ == prev.pixels@.update(idx as int, c));
                    if px == x && py == y {
                        assert(buf.at(px, py) == c);
                    } else {
                        if py * w + px == y * w + x {
                            lemma_index_injective(w as int, px, py, x as int, y as int);
                        }
                        assert(buf.at(px, py) == prev.at(px, py));
                    }
                }
            }
            x += 1;
        }
        y += 1;
    }
}

/// Paints the leaves in order, leaf `i` with `colors[i]`.
pub fn paint_all(buf: &mut PixelBuffer, leaves: &Vec<Rectangle>, colors: &Vec<Color>, border: u32)
    requires
        old(buf).wf(),
        colors.len() == leaves.len(),
        forall|i: int| 0 <= i < leaves.len() ==> (#[trigger] leaves[i]).wf() && old(buf).holds(leaves[i]),
    ensures
        final(buf).width == old(buf).width,
        final(buf).height == old(buf).height,
        final(buf).wf(),
        forall|px: int, py: int|
            final(buf).in_canvas(px, py) ==> #[trigger] final(buf).at(px, py) == painted_pixel(
                old(buf).at(px, py),
                leaves@,
                colors@,
                border,
                leaves.len() as int,
                px,
                py,
            ),
{
    let ghost before = *buf;
    let mut i: usize = 0;
    while i < leaves.len()
        invariant
            buf.width == before.width,
            buf.height == before.height,
            buf.wf(),
            colors.len() == leaves.len(),
            forall|k: int| 0 <= k < leaves.len() ==> (#[trigger] leaves[k]).wf() && before.holds(leaves[k]),
            i <= leaves.len(),
            forall|px: int, py: int|
                buf.in_canvas(px, py) ==> #[trigger] buf.at(px, py) == painted_pixel(
                    before.at(px, py),
                    leaves@,
                    colors@,
                    border,
                    i as int,
                    px,
                    py,
                ),
        decreases leaves.len() - i,
    {
        let ghost mid = *buf;
        paint_leaf(buf, leaves[i], colors[i], border);
        assert forall|px: int, py: int| buf.in_canvas(px, py) implies #[trigger] buf.at(px, py)
            == painted_pixel(before.at(px, py), leaves@, colors@, border, i + 1, px, py) by {
            assert(mid.in_canvas(px, py));
        }
        i += 1;
    }
}

/// Paints every leaf with a palette colour drawn by weight, inside a black
/// border. Returns the palette index drawn for each leaf; each has a
/// positive weight.
pub fn paint(
    buf: &mut PixelBuffer,
    leaves: &Vec<Rectangle>,
    palette: &Vec<Color>,
    weights: &Vec<u32>,
    border: u32,
) -> (choices: Vec<usize>)
    requires
        old(buf).wf(),
        palette.len() == weights.len(),
        weights_ok(weights@),
        forall|i: int| 0 <= i < leaves.len() ==> (#[trigger] leaves[i]).wf() && old(buf).holds(leaves[i]),
    ensures
        final(buf).width == old(buf).width,
        final(buf).height == old(buf).height,
        final(buf).wf(),
        choices.len() == leaves.len(),
        forall|i: int|
            0 <= i < choices.len() ==> #[trigger] choices[i] < palette.len() && weights[choices[i] as int] > 0,
        forall|px: int, py: int|
            final(buf).in_canvas(px, py) ==> #[trigger] final(buf).at(px, py) == painted_pixel(
                old(buf).at(px, py),
                leaves@,
                chosen_colors(palette@, choices@),
                border,
                leaves.len() as int,
                px,
                py,
            ),
{
    let mut choices: Vec<usize> = Vec::new();
    let mut colors: Vec<Color> = Vec::new();
    let mut i: usize = 0;
    while i < leaves.len()
        invariant
            palette.len() == weights.len(),
            weights_ok(weights@),
            i <= leaves.len(),
            choices.len() == i,
            colors@ == chosen_colors(palette@, choices@),
            forall|k: int|
                0 <= k < choices.len() ==> #[trigger] choices[k] < palette.len() && weights[choices[k] as int] > 0,
        decreases leaves.len() - i,
    {
        let k = weighted_index(weights);
        choices.push(k);
        colors.push(palette[k]);
        assert(colors@ =~= chosen_colors(palette@, choices@));
        i += 1;
    }
    paint_all(buf, leaves, &colors, border);
    choices
}

} // verus!
