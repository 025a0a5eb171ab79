use crate::error::LandError;
use vstd::prelude::*;

verus! {

/// An axis-aligned rectangle of unit cells: the cells `(cx, cy)` with
/// `x <= cx < x + width` and `y <= cy < y + height`.
#[derive(Clone, Copy, Debug, PartialEq, Eq, Hash, Structural)]
pub struct Rectangle {
    pub x: u64,
    pub y: u64,
    pub width: u64,
    pub height: u64,
}

/// The smaller of two integers.
pub open spec fn min_int(a: int, b: int) -> int {
    if a <= b {
        a
    } else {
        b
    }
}

/// The larger of two integers.
pub open spec fn max_int(a: int, b: int) -> int {
    if a >= b {
        a
    } else {
        b
    }
}

impl Rectangle {
    /// The first column to the right of the rectangle.
    pub open spec fn right(self) -> int {
        self.x + self.width
    }

    /// The first row below the rectangle.
    pub open spec fn bottom(self) -> int {
        self.y + self.height
    }

    /// Both far edges are coordinates of the grid, so that every sum of an
    /// origin and an extent can be held in a `u64`.
    pub open spec fn in_range(self) -> bool {
        self.right() <= u64::MAX && self.bottom() <= u64::MAX
    }

    /// The rectangle holds at least one cell.
    pub open spec fn has_area(self) -> bool {
        self.width > 0 && self.height > 0
    }

    /// The number of cells.
    pub open spec fn area(self) -> int {
        self.width * self.height
    }

    /// The cell `(cx, cy)` lies in the rectangle.
    pub open spec fn covers(self, cx: int, cy: int) -> bool {
        self.x <= cx < self.right() && self.y <= cy < self.bottom()
    }

    /// The set of cells of the rectangle.
    pub open spec fn cells(self) -> Set<(int, int)> {
        Set::new(|c: (int, int)| self.covers(c.0, c.1))
    }

    /// `inner` lies fully inside this rectangle.
    pub open spec fn contains_rect(self, inner: Rectangle) -> bool {
        &&& inner.x >= self.x
        &&& inner.y >= self.y
        &&& inner.right() <= self.right()
        &&& inner.bottom() <= self.bottom()
    }

    /// The two rectangles have a cell in common, provided both have area.
    pub open spec fn overlaps(self, other: Rectangle) -> bool {
        &&& self.x < other.right()
        &&& other.x < self.right()
        &&& self.y < other.bottom()
        &&& other.y < self.bottom()
    }

    /// A vertical edge of one lies on a vertical edge of the other, and the
    /// vertical extents meet or touch.
    pub open spec fn touches_sideways(self, other: Rectangle) -> bool {
        &&& (self.x == other.right() || self.right() == other.x)
        &&& !(self.bottom() < other.y || self.y > other.bottom())
    }

    /// A horizontal edge of one lies on a horizontal edge of the other, and
    /// the horizontal extents meet or touch.
    pub open spec fn touches_endways(self, other: Rectangle) -> bool {
        &&& (self.y == other.bottom() || self.bottom() == other.y)
        &&& !(self.right() < other.x || self.x > other.right())
    }

    /// The rectangles touch along an edge or at a corner. Touching is
    /// inclusive: extents that end where the other begins count as meeting.
    pub open spec fn adjacent(self, other: Rectangle) -> bool {
        self.touches_sideways(other) || self.touches_endways(other)
    }

    /// This rectangle is the smallest one that contains both `a` and `b`.
    pub open spec fn is_bounding_box_of(self, a: Rectangle, b: Rectangle) -> bool {
        &&& self.x == min_int(a.x as int, b.x as int)
        &&& self.y == min_int(a.y as int, b.y as int)
        &&& self.right() == max_int(a.right(), b.right())
        &&& self.bottom() == max_int(a.bottom(), b.bottom())
    }

    /// The cells of `a` and of `b` together are exactly the cells of this
    /// rectangle, and no cell belongs to both.
    pub open spec fn is_tiled_by(self, a: Rectangle, b: Rectangle) -> bool {
        &&& forall|cx: int, cy: int| self.covers(cx, cy) <==> a.covers(cx, cy) || b.covers(cx, cy)
        &&& forall|cx: int, cy: int| !(a.covers(cx, cy) && b.covers(cx, cy))
    }

    pub fn new(x: u64, y: u64, width: u64, height: u64) -> (r: Rectangle)
        ensures
            r == (Rectangle { x, y, width, height }),
    {
        Rectangle { x, y, width, height }
    }
}

/// Whether the rectangle `(x, y, width, height)` lies fully inside `container`.
///
/// The comparison is made on exact sums, so it is right for every input.
pub fn rectangle_within(container: &Rectangle, x: u64, y: u64, width: u64, height: u64) -> (inside:
    bool)
    ensures
        inside == container.contains_rect(Rectangle { x, y, width, height }),
{
    x >= container.x && y >= container.y && x as u128 + width as u128 <= container.x as u128
        + container.width as u128 && y as u128 + height as u128 <= container.y as u128
        + container.height as u128
}

/// Whether two rectangles share an edge, a part of an edge, or a corner.
pub fn rectangles_adjacent(a: &Rectangle, b: &Rectangle) -> (touching: bool)
    ensures
        touching == a.adjacent(*b),
{
    let a_right: u128 = a.x as u128 + a.width as u128;
    let a_bottom: u128 = a.y as u128 + a.height as u128;
    let b_right: u128 = b.x as u128 + b.width as u128;
    let b_bottom: u128 = b.y as u128 + b.height as u128;
    let sideways = (a.x as u128 == b_right || a_right == b.x as u128) && !(a_bottom < b.y as u128
        || a.y as u128 > b_bottom);
    let endways = (a.y as u128 == b_bottom || a_bottom == b.y as u128) && !(a_right < b.x as u128
        || a.x as u128 > b_right);
    sideways || endways
}

/// The smallest rectangle that covers both `a` and `b`. Fails where a far
/// edge of either is no coordinate of the grid.
///
/// The box is a sound target for a merge only when `a` and `b` tile it; see
/// [`lemma_equal_area_tiles`].
pub fn merged_bounds(a: &Rectangle, b: &Rectangle) -> (bounds: Result<Rectangle, LandError>)
    ensures
        a.in_range() && b.in_range() ==> bounds == Ok::<Rectangle, LandError>(bounding_box(*a, *b)),
        !(a.in_range() && b.in_range()) ==> bounds == Err::<Rectangle, LandError>(
            LandError::CalculationError,
        ),
{
    let a_right = a.x.checked_add(a.width);
    let a_bottom = a.y.checked_add(a.height);
    let b_right = b.x.checked_add(b.width);
    let b_bottom = b.y.checked_add(b.height);
    match (a_right, a_bottom, b_right, b_bottom) {
        (Some(ar), Some(ab), Some(br), Some(bb)) => {
            let x = if a.x <= b.x {
                a.x
            } else {
                b.x
            };
            let y = if a.y <= b.y {
                a.y
            } else {
                b.y
            };
            let end_x = if ar >= br {
                ar
            } else {
                br
            };
            let end_y = if ab >= bb {
                ab
            } else {
                bb
            };
            Ok(Rectangle { x, y, width: end_x - x, height: end_y - y })
        },
        _ => Err(LandError::CalculationError),
    }
}

/// Adjacency does not depend on the order of the two rectangles.
pub proof fn lemma_adjacent_symmetric(a: Rectangle, b: Rectangle)
    ensures
        a.adjacent(b) == b.adjacent(a),
{
}

/// Two rectangles with area have a cell in common exactly when their
/// extents overlap in both directions.
pub proof fn lemma_overlap_is_common_cell(a: Rectangle, b: Rectangle)
    requires
        a.has_area(),
        b.has_area(),
    ensures
        a.overlaps(b) <==> exists|cx: int, cy: int| a.covers(cx, cy) && b.covers(cx, cy),
        a.overlaps(b) <==> !a.cells().disjoint(b.cells()),
{
    let cx = max_int(a.x as int, b.x as int);
    let cy = max_int(a.y as int, b.y as int);
    if a.overlaps(b) {
        assert(a.cells().contains((cx, cy)) && b.cells().contains((cx, cy)));
    }
}

/// If a box at least as wide as two widths together, and at least as high as
/// either height, has no more area than the two rectangles, then it is
/// exactly as wide as both and as high as each.
proof fn lemma_area_squeeze(wa: int, wb: int, ha: int, hb: int, w: int, h: int)
    requires
        wa > 0,
        wb > 0,
        ha > 0,
        hb > 0,
        w >= wa + wb,
        h >= ha,
        h >= hb,
        w * h == wa * ha + wb * hb,
    ensures
        w == wa + wb,
        h == ha,
        h == hb,
{
    assert(w * h >= (wa + wb) * h) by (nonlinear_arith)
        requires
            w >= wa + wb,
            h >= 0,
    ;
    assert((wa + wb) * h == wa * h + wb * h) by (nonlinear_arith);
    assert(wa * h >= wa * ha) by (nonlinear_arith)
        requires
            h >= ha,
            wa >= 0,
    ;
    assert(wb * h >= wb * hb) by (nonlinear_arith)
        requires
            h >= hb,
            wb >= 0,
    ;
    assert(h == ha) by (nonlinear_arith)
        requires
            wa > 0,
            h >= ha,
            wa * h == wa * ha,
    ;
    assert(h == hb) by (nonlinear_arith)
        requires
            wb > 0,
            h >= hb,
            wb * h == wb * hb,
    ;
    assert(w == wa + wb) by (nonlinear_arith)
        requires
            h > 0,
            w >= wa + wb,
            w * h == (wa + wb) * h,
    ;
}

/// Two rectangles that do not overlap, and whose areas add up to the area
/// of their bounding box, fill that box exactly: a merge into the box
/// claims no cell that neither of them held.
pub proof fn lemma_equal_area_tiles(a: Rectangle, b: Rectangle, m: Rectangle)
    requires
        a.has_area(),
        b.has_area(),
        !a.overlaps(b),
        m.is_bounding_box_of(a, b),
        m.area() == a.area() + b.area(),
    ensures
        m.is_tiled_by(a, b),
        a.adjacent(b),
{
    let w = m.width as int;
    let h = m.height as int;
    if a.right() <= b.x || b.right() <= a.x {
        lemma_area_squeeze(a.width as int, b.width as int, a.height as int, b.height as int, w, h);
    } else {
        lemma_area_squeeze(a.height as int, b.height as int, a.width as int, b.width as int, h, w);
    }
}

/// The smallest rectangle that contains both `a` and `b`.
pub open spec fn bounding_box(a: Rectangle, b: Rectangle) -> Rectangle {
    let x = min_int(a.x as int, b.x as int);
    let y = min_int(a.y as int, b.y as int);
    Rectangle {
        x: x as u64,
        y: y as u64,
        width: (max_int(a.right(), b.right()) - x) as u64,
        height: (max_int(a.bottom(), b.bottom()) - y) as u64,
    }
}

/// Where the far edges of both rectangles are coordinates of the grid,
/// their bounding box is the one rectangle that bounds them.
pub proof fn lemma_bounding_box_is_unique(a: Rectangle, b: Rectangle, m: Rectangle)
    requires
        a.in_range(),
        b.in_range(),
    ensures
        bounding_box(a, b).is_bounding_box_of(a, b),
        bounding_box(a, b).in_range(),
        m.is_bounding_box_of(a, b) ==> m == bounding_box(a, b),
{
}

/// A rectangle inside another has no more area than it.
pub proof fn lemma_area_bounded(inner: Rectangle, outer: Rectangle)
    requires
        outer.contains_rect(inner),
    ensures
        inner.area() <= outer.area(),
{
    assert(inner.width * inner.height <= outer.width * outer.height) by (nonlinear_arith)
        requires
            0 <= inner.width <= outer.width,
            0 <= inner.height <= outer.height,
    ;
}

} // verus!
