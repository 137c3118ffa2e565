use crate::random::{random_between, random_coin};
use vstd::prelude::*;

verus! {

/// An axis-aligned rectangle of pixels; `(x, y)` is its top-left corner.
#[derive(Clone, Copy, Debug, PartialEq, Eq, Structural)]
pub struct Rectangle {
    pub x: u32,
    pub y: u32,
    pub width: u32,
    pub height: u32,
}

/// Smallest cut allowed along an extent: two fifths of it, and at least one pixel.
pub open spec fn cut_low(extent: u32) -> int {
    if extent * 2 / 5 < 1 {
        1
    } else {
        extent * 2 / 5
    }
}

/// Largest cut allowed along an extent: three fifths of it.
pub open spec fn cut_high(extent: u32) -> int {
    extent * 3 / 5
}

/// The drawn cut, brought into the allowed range.
pub open spec fn clamp_cut(extent: u32, draw: u32) -> int {
    if draw < cut_low(extent) {
        cut_low(extent)
    } else if draw > cut_high(extent) {
        cut_high(extent)
    } else {
        draw as int
    }
}

proof fn lemma_cut_bounds(extent: u32)
    requires
        extent >= 2,
    ensures
        1 <= cut_low(extent) <= cut_high(extent) < extent,
{
}

impl Rectangle {
    /// Positive extents, and the far edges stay representable.
    pub open spec fn wf(self) -> bool {
        &&& self.width > 0
        &&& self.height > 0
        &&& self.x + self.width <= u32::MAX
        &&& self.y + self.height <= u32::MAX
    }

    pub open spec fn contains(self, px: int, py: int) -> bool {
        &&& self.x <= px < self.x + self.width
        &&& self.y <= py < self.y + self.height
    }

    pub open spec fn area(self) -> int {
        self.width * self.height
    }

    /// A rectangle of a single pixel cannot be split into two non-empty parts.
    pub open spec fn can_split(self) -> bool {
        self.width >= 2 || self.height >= 2
    }

    /// Whether the split line is vertical (children side by side). Elongated
    /// rectangles are cut across their long side; otherwise the coin decides.
    /// An axis one pixel thick is never cut.
    pub open spec fn side_by_side(self, coin: bool) -> bool {
        let preferred = if self.width / self.height > 2 {
            true
        } else if self.height / self.width > 2 {
            false
        } else {
            coin
        };
        if preferred {
            self.width >= 2
        } else {
            self.height < 2
        }
    }

    /// The two children for a given coin and drawn cut.
    pub open spec fn split_with_spec(self, coin: bool, draw: u32) -> (Rectangle, Rectangle) {
        if self.side_by_side(coin) {
            let c = clamp_cut(self.width, draw);
            (
                Rectangle { x: self.x, y: self.y, width: c as u32, height: self.height },
                Rectangle {
                    x: (self.x + c) as u32,
                    y: self.y,
                    width: (self.width - c) as u32,
                    height: self.height,
                },
            )
        } else {
            let c = clamp_cut(self.height, draw);
            (
                Rectangle { x: self.x, y: self.y, width: self.width, height: c as u32 },
                Rectangle {
                    x: self.x,
                    y: (self.y + c) as u32,
                    width: self.width,
                    height: (self.height - c) as u32,
                },
            )
        }
    }

    pub fn new(x: u32, y: u32, width: u32, height: u32) -> (r: Self)
        requires
            width > 0,
            height > 0,
            x + width <= u32::MAX,
            y + height <= u32::MAX,
        ensures
            r == (Rectangle { x, y, width, height }),
            r.wf(),
    {
        Rectangle { x, y, width, height }
    }

    pub fn splittable(&self) -> (r: bool)
        ensures
            r == self.can_split(),
    {
        self.width >= 2 || self.height >= 2
    }

    /// Decides the split axis; `true` puts the children side by side.
    pub fn split_side_by_side(&self, coin: bool) -> (r: bool)
        requires
            self.wf(),
        ensures
            r == self.side_by_side(coin),
    {
        let preferred = if self.width / self.height > 2 {
            true
        } else if self.height / self.width > 2 {
            false
        } else {
            coin
        };
        if preferred {
            self.width >= 2
        } else {
            self.height < 2
        }
    }

    /// The range `(low, high)` of cuts allowed along an extent.
    pub fn cut_range(extent: u32) -> (r: (u32, u32))
        requires
            extent >= 2,
        ensures
            r.0 == cut_low(extent),
            r.1 == cut_high(extent),
            1 <= r.0 <= r.1 < extent,
    {
        proof {
            lemma_cut_bounds(extent);
        }
        let low = (extent as u64 * 2 / 5) as u32;
        let high = (extent as u64 * 3 / 5) as u32;
        if low < 1 {
            (1, high)
        } else {
            (low, high)
        }
    }

    /// Splits with a given coin (the axis of a balanced rectangle) and a drawn
    /// cut, which is brought into the allowed range first.
    pub fn split_with(&self, coin: bool, draw: u32) -> (r: (Rectangle, Rectangle))
        requires
            self.wf(),
            self.can_split(),
        ensures
            r == self.split_with_spec(coin, draw),
    {
        let side = self.split_side_by_side(coin);
        let extent = if side {
            self.width
        } else {
            self.height
        };
        let (low, high) = Rectangle::cut_range(extent);
        let c = if draw < low {
            low
        } else if draw > high {
            high
        } else {
            draw
        };
        if side {
            (
                Rectangle { x: self.x, y: self.y, width: c, height: self.height },
                Rectangle { x: self.x + c, y: self.y, width: self.width - c, height: self.height },
            )
        } else {
            (
                Rectangle { x: self.x, y: self.y, width: self.width, height: c },
                Rectangle { x: self.x, y: self.y + c, width: self.width, height: self.height - c },
            )
        }
    }

    /// Splits into two children along a random axis (forced for elongated
    /// rectangles) at a random cut between two and three fifths of the extent.
    pub fn split(&self) -> (r: (Rectangle, Rectangle))
        requires
            self.wf(),
            self.can_split(),
        ensures
            exists|coin: bool, draw: u32| #[trigger] self.split_with_spec(coin, draw) == r,
    {
        let coin = random_coin();
        let side = self.split_side_by_side(coin);
        let extent = if side {
            self.width
        } else {
            self.height
        };
        let (low, high) = Rectangle::cut_range(extent);
        let draw = random_between(low, high);
        self.split_with(coin, draw)
    }
}

/// A single split tiles its rectangle: every pixel of the parent lies in
/// exactly one child, no child reaches outside it, and both children are
/// well formed. The children sit side by side or one above the other, and
/// each keeps at least two fifths of the cut extent.
pub proof fn split_tiles(p: Rectangle, coin: bool, draw: u32)
    requires
        p.wf(),
        p.can_split(),
    ensures
        ({
            let (l, r) = p.split_with_spec(coin, draw);
            &&& l.wf()
            &&& r.wf()
            &&& forall|px: int, py: int|
                p.contains(px, py) <==> (#[trigger] l.contains(px, py) || #[trigger] r.contains(
                    px,
                    py,
                ))
            &&& forall|px: int, py: int| !(#[trigger] l.contains(px, py) && #[trigger] r.contains(px, py))
            &&& l.area() + r.area() == p.area()
            &&& l.x == p.x && l.y == p.y
            &&& {
                ||| (l.height == p.height && r.height == p.height && r.y == p.y && r.x == p.x
                    + l.width && l.width + r.width == p.width)
                ||| (l.width == p.width && r.width == p.width && r.x == p.x && r.y == p.y
                    + l.height && l.height + r.height == p.height)
            }
            &&& l.width >= p.width * 2 / 5 && r.width >= p.width * 2 / 5
            &&& l.height >= p.height * 2 / 5 && r.height >= p.height * 2 / 5
        }),
{
    if p.side_by_side(coin) {
        lemma_cut_bounds(p.width);
        let c = clamp_cut(p.width, draw);
        assert(p.width * p.height == c * p.height + (p.width - c) * p.height) by (nonlinear_arith);
    } else {
        lemma_cut_bounds(p.height);
        let c = clamp_cut(p.height, draw);
        assert(p.width * p.height == p.width * c + p.width * (p.height - c)) by (nonlinear_arith);
    }
}

} // verus!
