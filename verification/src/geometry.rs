//! Axis-aligned bounding boxes.
//!
//! `(x, y)` is the top-left corner in a coordinate system whose y axis grows
//! upward; the box spans `[x, x + width]` horizontally and `[y - height, y]`
//! vertically. Two boxes intersect when the distance between their centers on
//! each axis is strictly less than the half-sum of their extents on that axis
//! (touching edges do not count as colliding).

use vstd::prelude::*;
use crate::fx::COORD_BOUND;

verus! {

/// An axis-aligned bounding box; `(x, y)` is its top-left corner and the y
/// axis grows upward. Coordinates are fixed-point (see `crate::fx`).
#[derive(Clone, Copy, Debug, PartialEq, Eq, Structural)]
pub struct AxisBoundingBox {
    pub x: i64,
    pub y: i64,
    pub width: i64,
    pub height: i64,
}

/// Bound on box extents; keeps every quantity `intersects` computes inside
/// `i64` range.
pub const EXTENT_BOUND: i64 = 10_000_000_000_000;

impl AxisBoundingBox {
    /// Validity of a box: nonnegative extents, and magnitudes small enough
    /// that overlap arithmetic cannot overflow.
    pub open spec fn wf(self) -> bool {
        &&& -3 * COORD_BOUND <= self.x <= 3 * COORD_BOUND
        &&& -3 * COORD_BOUND <= self.y <= 3 * COORD_BOUND
        &&& 0 <= self.width <= EXTENT_BOUND
        &&& 0 <= self.height <= EXTENT_BOUND
    }

    /// Whether `a` and `b` overlap: on each axis, twice the distance between
    /// the centers is strictly less than the sum of the extents. (Comparing
    /// doubled center distances avoids halving, which would truncate.)
    pub open spec fn spec_intersects(a: AxisBoundingBox, b: AxisBoundingBox) -> bool {
        let dcx2 = 2 * a.x + a.width - (2 * b.x + b.width);
        let dcy2 = 2 * a.y - a.height - (2 * b.y - b.height);
        &&& (if dcx2 >= 0 {
            dcx2
        } else {
            -dcx2
        }) < a.width + b.width
        &&& (if dcy2 >= 0 {
            dcy2
        } else {
            -dcy2
        }) < a.height + b.height
    }

    /// Strict half-extent overlap test.
    pub fn intersects(&self, other: &Self) -> (r: bool)
        requires
            self.wf(),
            other.wf(),
        ensures
            r == Self::spec_intersects(*self, *other),
    {
        let dcx2: i64 = 2 * self.x + self.width - (2 * other.x + other.width);
        let dcy2: i64 = 2 * self.y - self.height - (2 * other.y - other.height);
        let ax: i64 = if dcx2 >= 0 {
            dcx2
        } else {
            -dcx2
        };
        let ay: i64 = if dcy2 >= 0 {
            dcy2
        } else {
            -dcy2
        };
        ax < self.width + other.width && ay < self.height + other.height
    }

    /// The box translated by `(dx, dy)`, as a value.
    pub open spec fn spec_offset_by(self, dx: int, dy: int) -> AxisBoundingBox {
        AxisBoundingBox {
            x: (self.x + dx) as i64,
            y: (self.y + dy) as i64,
            width: self.width,
            height: self.height,
        }
    }

    /// A copy of the box translated by `(dx, dy)`; the box itself is never
    /// mutated.
    pub fn offset_by(&self, dx: i64, dy: i64) -> (r: Self)
        requires
            i64::MIN <= self.x + dx <= i64::MAX,
            i64::MIN <= self.y + dy <= i64::MAX,
        ensures
            r == self.spec_offset_by(dx as int, dy as int),
            r.x == self.x + dx,
            r.y == self.y + dy,
    {
        Self { x: self.x + dx, y: self.y + dy, width: self.width, height: self.height }
    }
}

/// The overlap test is symmetric: `intersects(a, b) == intersects(b, a)`.
pub proof fn lemma_intersects_symmetric(a: AxisBoundingBox, b: AxisBoundingBox)
    ensures
        AxisBoundingBox::spec_intersects(a, b) == AxisBoundingBox::spec_intersects(b, a),
{
}

/// Translation composes: offsetting by `(dx1, dy1)` and then by `(dx2, dy2)`
/// gives the box offset by `(dx1 + dx2, dy1 + dy2)`, whenever the partial
/// sums fit the coordinate type.
pub proof fn lemma_offset_by_composes(a: AxisBoundingBox, dx1: int, dy1: int, dx2: int, dy2: int)
    requires
        i64::MIN <= a.x + dx1 <= i64::MAX,
        i64::MIN <= a.y + dy1 <= i64::MAX,
        i64::MIN <= a.x + dx1 + dx2 <= i64::MAX,
        i64::MIN <= a.y + dy1 + dy2 <= i64::MAX,
    ensures
        a.spec_offset_by(dx1, dy1).spec_offset_by(dx2, dy2) == a.spec_offset_by(
            dx1 + dx2,
            dy1 + dy2,
        ),
{
}

} // verus!
