use crate::paint::{
    black, border_width, chosen_colors, leaf_pixel, on_border, paint, painted_pixel, weights_ok,
    Color, PixelBuffer,
};
use crate::rect::Rectangle;
use crate::tree::{build, leaves_tile, tiles, Tree};
use vstd::prelude::*;

verus! {

/// A pixel covered by one of the first `n` leaves has the colour that the
/// last of them to cover it gave it.
proof fn lemma_painted_by_leaf(
    base: Color,
    leaves: Seq<Rectangle>,
    colors: Seq<Color>,
    border: u32,
    n: int,
    px: int,
    py: int,
)
    requires
        0 <= n <= leaves.len(),
        exists|k: int| 0 <= k < n && #[trigger] leaves[k].contains(px, py),
    ensures
        exists|k: int|
            0 <= k < n && #[trigger] leaves[k].contains(px, py) && painted_pixel(
                base,
                leaves,
                colors,
                border,
                n,
                px,
                py,
            ) == leaf_pixel(leaves[k], colors[k], border, px, py),
    decreases n,
{
    if leaves[n - 1].contains(px, py) {
        assert(painted_pixel(base, leaves, colors, border, n, px, py) == leaf_pixel(
            leaves[n - 1],
            colors[n - 1],
            border,
            px,
            py,
        ));
    } else {
        let k = choose|k: int| 0 <= k < n && #[trigger] leaves[k].contains(px, py);
        assert(k < n - 1);
        lemma_painted_by_leaf(base, leaves, colors, border, n - 1, px, py);
    }
}

/// Generates a composition: the canvas is split `levels` times into a tree
/// of rectangles, and each leaf is painted with a palette colour drawn by
/// weight inside a black border a thousandth of the canvas's longer side
/// wide. Whatever is drawn, every pixel is black or a palette colour of
/// positive weight, and the border band around the whole canvas is black.
pub fn generate(
    width: u32,
    height: u32,
    levels: usize,
    palette: &Vec<Color>,
    weights: &Vec<u32>,
) -> (r: PixelBuffer)
    requires
        width > 0,
        height > 0,
        width * height <= usize::MAX,
        palette.len() == weights.len(),
        weights_ok(weights@),
    ensures
        r.width == width,
        r.height == height,
        r.wf(),
        forall|px: int, py: int|
            r.in_canvas(px, py) ==> (#[trigger] r.at(px, py) == black() || exists|i: int|
                0 <= i < palette.len() && weights[i] > 0 && palette[i] == r.at(px, py)),
        forall|px: int, py: int|
            r.in_canvas(px, py) && ({
                let b = (if width >= height {
                    width
                } else {
                    height
                }) / 1000;
                px < b || py < b || px >= width - b || py >= height - b
            }) ==> #[trigger] r.at(px, py) == black(),
        exists|t: Tree, choices: Seq<usize>|
            #[trigger] t.built(levels as nat) && t.item == (Rectangle {
                x: 0,
                y: 0,
                width,
                height,
            }) && t.depth == 0 && #[trigger] choices.len() == t.leaves_spec().len() && (forall|
                i: int,
            |
                0 <= i < choices.len() ==> #[trigger] choices[i] < palette.len() && weights[choices[i] as int]
                    > 0) && (forall|px: int, py: int|
                r.in_canvas(px, py) ==> #[trigger] r.at(px, py) == painted_pixel(
                    black(),
                    t.leaves_spec(),
                    chosen_colors(palette@, choices),
                    ((if width >= height {
                        width
                    } else {
                        height
                    }) / 1000) as u32,
                    t.leaves_spec().len() as int,
                    px,
                    py,
                )),
{
    let mut buf = PixelBuffer::new(width, height);
    let root = Rectangle::new(0, 0, width, height);
    let tree = build(root, levels);
    let ghost tree_g = tree;
    let leaves = tree.leaves();
    proof {
        leaves_tile(tree, levels as nat);
    }
    assert forall|i: int| 0 <= i < leaves.len() implies (#[trigger] leaves[i]).wf() && buf.holds(
        leaves[i],
    ) by {
        let l = leaves[i];
        assert(l.contains(l.x + l.width - 1, l.y + l.height - 1));
    }
    let border = border_width(width, height);
    let ghost before = buf;
    let choices = paint(&mut buf, &leaves, palette, weights, border);
    let ghost colors = chosen_colors(palette@, choices@);
    assert forall|px: int, py: int| buf.in_canvas(px, py) implies exists|k: int|
        0 <= k < leaves.len() && #[trigger] leaves@[k].contains(px, py) && buf.at(px, py)
            == leaf_pixel(leaves@[k], colors[k], border, px, py) by {
        assert(before.in_canvas(px, py));
        assert(root.contains(px, py));
        assert(tiles(root, leaves@));
        lemma_painted_by_leaf(
            before.at(px, py),
            leaves@,
            colors,
            border,
            leaves.len() as int,
            px,
            py,
        );
    }
    assert forall|px: int, py: int| buf.in_canvas(px, py) implies (#[trigger] buf.at(px, py)
        == black() || exists|i: int|
        0 <= i < palette.len() && weights[i] > 0 && palette[i] == buf.at(px, py)) by {
        let k = choose|k: int|
            0 <= k < leaves.len() && #[trigger] leaves@[k].contains(px, py) && buf.at(px, py)
                == leaf_pixel(leaves@[k], colors[k], border, px, py);
        if buf.at(px, py) != black() {
            assert(choices[k] < palette.len() && weights[choices[k] as int] > 0);
            assert(palette[choices[k] as int] == buf.at(px, py));
        }
    }
    assert forall|px: int, py: int|
        buf.in_canvas(px, py) && (px < border || py < border || px >= width - border || py
            >= height - border) implies #[trigger] buf.at(px, py) == black() by {
        let k = choose|k: int|
            0 <= k < leaves.len() && #[trigger] leaves@[k].contains(px, py) && buf.at(px, py)
                == leaf_pixel(leaves@[k], colors[k], border, px, py);
        assert(leaves[k].wf() && buf.holds(leaves[k]));
        assert(on_border(leaves@[k], border, px, py));
    }
    assert forall|px: int, py: int| buf.in_canvas(px, py) implies #[trigger] buf.at(px, py)
        == painted_pixel(black(), tree_g.leaves_spec(), colors, border, leaves.len() as int, px, py) by {
        assert(before.in_canvas(px, py));
    }
    assert(tree_g.built(levels as nat));
    assert(choices@.len() == tree_g.leaves_spec().len());
    buf
}

} // verus!
