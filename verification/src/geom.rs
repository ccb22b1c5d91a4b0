//! Points and axis-aligned boxes.

use crate::scalar::{
    lemma_min_max_bounds, lemma_min_max_commutative, lemma_min_max_idempotent, Scalar,
};
use vstd::prelude::*;

verus! {

/// The bits of a hundred-thousandth, as near as 32 bits come to it.
pub const NEAR_ZERO_BITS: u32 = 0x3727_c5ac;

/// A point or a direction in space.
#[derive(Debug, Copy, Clone, PartialEq, Eq, Structural)]
pub struct V3 {
    pub x: Scalar,
    pub y: Scalar,
    pub z: Scalar,
}

impl V3 {
    /// Whether no coordinate is not a number.
    pub open spec fn is_numeric(self) -> bool {
        !self.x.is_nan() && !self.y.is_nan() && !self.z.is_nan()
    }

    /// The coordinate on `axis`: 0 is x, 1 is y, anything else is z.
    pub open spec fn on(self, axis: u8) -> Scalar {
        if axis == 0 {
            self.x
        } else if axis == 1 {
            self.y
        } else {
            self.z
        }
    }

    /// The smaller coordinate on each axis.
    pub open spec fn min_of(self, other: V3) -> V3 {
        V3 {
            x: self.x.min_of(other.x),
            y: self.y.min_of(other.y),
            z: self.z.min_of(other.z),
        }
    }

    /// The larger coordinate on each axis.
    pub open spec fn max_of(self, other: V3) -> V3 {
        V3 {
            x: self.x.max_of(other.x),
            y: self.y.max_of(other.y),
            z: self.z.max_of(other.z),
        }
    }

    /// Whether each coordinate is at most that of `other`.
    pub open spec fn le(self, other: V3) -> bool {
        self.x.le(other.x) && self.y.le(other.y) && self.z.le(other.z)
    }

    pub fn new(x: Scalar, y: Scalar, z: Scalar) -> (v: V3)
        ensures
            v == (V3 { x, y, z }),
    {
        V3 { x, y, z }
    }

    /// The point with all coordinates equal to `v`.
    pub fn fill(v: Scalar) -> (r: V3)
        ensures
            r == (V3 { x: v, y: v, z: v }),
    {
        V3 { x: v, y: v, z: v }
    }

    pub fn x(&self) -> (r: Scalar)
        ensures
            r == self.x,
    {
        self.x
    }

    pub fn y(&self) -> (r: Scalar)
        ensures
            r == self.y,
    {
        self.y
    }

    pub fn z(&self) -> (r: Scalar)
        ensures
            r == self.z,
    {
        self.z
    }

    /// The coordinate on `axis`.
    pub fn axis(&self, axis: u8) -> (r: Scalar)
        ensures
            r == self.on(axis),
    {
        if axis == 0 {
            self.x
        } else if axis == 1 {
            self.y
        } else {
            self.z
        }
    }

    /// The smaller coordinate on each axis.
    pub fn min(&self, other: V3) -> (r: V3)
        ensures
            r == self.min_of(other),
    {
        V3 { x: self.x.min(other.x), y: self.y.min(other.y), z: self.z.min(other.z) }
    }

    /// The larger coordinate on each axis.
    pub fn max(&self, other: V3) -> (r: V3)
        ensures
            r == self.max_of(other),
    {
        V3 { x: self.x.max(other.x), y: self.y.max(other.y), z: self.z.max(other.z) }
    }

    /// Whether every coordinate is within a hundred-thousandth of zero.
    pub open spec fn is_near_zero(self) -> bool {
        let limit = Scalar { bits: NEAR_ZERO_BITS };
        self.x.abs_of().le(limit) && self.y.abs_of().le(limit) && self.z.abs_of().le(limit)
    }

    /// Whether every coordinate is within a hundred-thousandth of zero.
    pub fn near_zero(&self) -> (r: bool)
        ensures
            r == self.is_near_zero(),
    {
        let limit = Scalar::from_bits(NEAR_ZERO_BITS);
        self.x.abs().at_most(limit) && self.y.abs().at_most(limit) && self.z.abs().at_most(limit)
    }

    /// The coordinates without their signs.
    pub fn abs(&self) -> (r: V3)
        ensures
            r == (V3 { x: self.x.abs_of(), y: self.y.abs_of(), z: self.z.abs_of() }),
    {
        V3 { x: self.x.abs(), y: self.y.abs(), z: self.z.abs() }
    }
}

/// An axis-aligned box, by its two extreme corners.
#[derive(Debug, Copy, Clone, PartialEq, Eq, Structural)]
pub struct BoundingBox {
    pub minimum: V3,
    pub maximum: V3,
}

impl BoundingBox {
    /// On each axis the minimum is at most the maximum; so no coordinate
    /// is not a number.
    pub open spec fn well_formed(self) -> bool {
        self.minimum.le(self.maximum)
    }

    /// The smallest box that holds both boxes.
    pub open spec fn join_of(self, other: BoundingBox) -> BoundingBox {
        BoundingBox {
            minimum: self.minimum.min_of(other.minimum),
            maximum: self.maximum.max_of(other.maximum),
        }
    }

    /// Whether `other` lies within this box.
    pub open spec fn holds(self, other: BoundingBox) -> bool {
        self.minimum.le(other.minimum) && other.maximum.le(self.maximum)
    }

    /// Whether `point` lies within this box.
    pub open spec fn holds_point(self, point: V3) -> bool {
        self.minimum.le(point) && point.le(self.maximum)
    }

    /// Corner `index` of the box, for `index` below 8: bit 0 of the index
    /// chooses the minimum on x where it is set and the maximum where it
    /// is not, bit 1 does so on y, and bit 2 on z.
    pub open spec fn corner_of(self, index: u8) -> V3 {
        V3 {
            x: if index % 2 == 0 {
                self.maximum.x
            } else {
                self.minimum.x
            },
            y: if (index / 2) % 2 == 0 {
                self.maximum.y
            } else {
                self.minimum.y
            },
            z: if (index / 4) % 2 == 0 {
                self.maximum.z
            } else {
                self.minimum.z
            },
        }
    }

    /// The box that the points from the one at `i` on widen `so_far` to.
    pub open spec fn widened(so_far: BoundingBox, points: Seq<V3>, i: int) -> BoundingBox
        decreases points.len() - i,
    {
        if i < 0 || i >= points.len() {
            so_far
        } else {
            BoundingBox::widened(
                BoundingBox {
                    minimum: so_far.minimum.min_of(points[i]),
                    maximum: so_far.maximum.max_of(points[i]),
                },
                points,
                i + 1,
            )
        }
    }

    /// The box that holds nothing: its minimum is infinitely large and its
    /// maximum infinitely small.
    pub open spec fn nothing() -> BoundingBox {
        BoundingBox {
            minimum: V3 {
                x: Scalar::infinity_spec(),
                y: Scalar::infinity_spec(),
                z: Scalar::infinity_spec(),
            },
            maximum: V3 {
                x: Scalar::neg_infinity_spec(),
                y: Scalar::neg_infinity_spec(),
                z: Scalar::neg_infinity_spec(),
            },
        }
    }

    /// The smallest box that holds all of `points`.
    pub open spec fn enclosing_of(points: Seq<V3>) -> BoundingBox {
        BoundingBox::widened(BoundingBox::nothing(), points, 0)
    }

    pub fn new(minimum: V3, maximum: V3) -> (b: BoundingBox)
        ensures
            b == (BoundingBox { minimum, maximum }),
    {
        BoundingBox { minimum, maximum }
    }

    /// Whether the box is well formed.
    pub fn is_well_formed(&self) -> (r: bool)
        ensures
            r == self.well_formed(),
    {
        self.minimum.x.at_most(self.maximum.x) && self.minimum.y.at_most(self.maximum.y)
            && self.minimum.z.at_most(self.maximum.z)
    }

    /// The smallest box that holds both boxes.
    pub fn join(&self, other: BoundingBox) -> (r: BoundingBox)
        ensures
            r == self.join_of(other),
    {
        BoundingBox {
            minimum: self.minimum.min(other.minimum),
            maximum: self.maximum.max(other.maximum),
        }
    }

    /// Corner `index` of the box.
    pub fn corner(&self, index: u8) -> (r: V3)
        ensures
            r == self.corner_of(index),
    {
        V3 {
            x: if index % 2 == 0 {
                self.maximum.x
            } else {
                self.minimum.x
            },
            y: if (index / 2) % 2 == 0 {
                self.maximum.y
            } else {
                self.minimum.y
            },
            z: if (index / 4) % 2 == 0 {
                self.maximum.z
            } else {
                self.minimum.z
            },
        }
    }

    /// The eight corners of the box, corner 0 first.
    pub fn corners(&self) -> (r: Vec<V3>)
        ensures
            r@.len() == 8,
            forall|i: int| 0 <= i < 8 ==> r@[i] == self.corner_of(i as u8),
    {
        let mut out: Vec<V3> = Vec::new();
        let mut i: u8 = 0;
        while i < 8
            invariant
                i <= 8,
                out@.len() == i,
                forall|k: int| 0 <= k < i ==> out@[k] == self.corner_of(k as u8),
            decreases 8 - i,
        {
            out.push(self.corner(i));
            i += 1;
        }
        out
    }

    /// The smallest box that holds all of `points`.
    pub fn enclosing(points: &[V3]) -> (r: BoundingBox)
        ensures
            r == BoundingBox::enclosing_of(points@),
    {
        let mut minimum = V3::fill(Scalar::infinity());
        let mut maximum = V3::fill(Scalar::neg_infinity());
        let n = points.len();
        let mut i: usize = 0;
        while i < n
            invariant
                i <= n == points@.len(),
                BoundingBox::enclosing_of(points@) == BoundingBox::widened(
                    BoundingBox { minimum, maximum },
                    points@,
                    i as int,
                ),
            decreases n - i,
        {
            minimum = minimum.min(points[i]);
            maximum = maximum.max(points[i]);
            i += 1;
        }
        BoundingBox { minimum, maximum }
    }
}

/// Joining a box with itself gives the box.
pub proof fn lemma_join_idempotent(a: BoundingBox)
    ensures
        a.join_of(a) == a,
{
    lemma_min_max_idempotent(a.minimum.x);
    lemma_min_max_idempotent(a.minimum.y);
    lemma_min_max_idempotent(a.minimum.z);
    lemma_min_max_idempotent(a.maximum.x);
    lemma_min_max_idempotent(a.maximum.y);
    lemma_min_max_idempotent(a.maximum.z);
}

/// The join of two well-formed boxes does not depend on their order.
pub proof fn lemma_join_commutative(a: BoundingBox, b: BoundingBox)
    requires
        a.well_formed(),
        b.well_formed(),
    ensures
        a.join_of(b) == b.join_of(a),
{
    lemma_min_max_commutative(a.minimum.x, b.minimum.x);
    lemma_min_max_commutative(a.minimum.y, b.minimum.y);
    lemma_min_max_commutative(a.minimum.z, b.minimum.z);
    lemma_min_max_commutative(a.maximum.x, b.maximum.x);
    lemma_min_max_commutative(a.maximum.y, b.maximum.y);
    lemma_min_max_commutative(a.maximum.z, b.maximum.z);
}

/// The join of two well-formed boxes is well formed and holds both.
pub proof fn lemma_join_holds(a: BoundingBox, b: BoundingBox)
    requires
        a.well_formed(),
        b.well_formed(),
    ensures
        a.join_of(b).well_formed(),
        a.join_of(b).holds(a),
        a.join_of(b).holds(b),
{
    lemma_min_max_bounds(a.minimum.x, b.minimum.x);
    lemma_min_max_bounds(a.minimum.y, b.minimum.y);
    lemma_min_max_bounds(a.minimum.z, b.minimum.z);
    lemma_min_max_bounds(a.maximum.x, b.maximum.x);
    lemma_min_max_bounds(a.maximum.y, b.maximum.y);
    lemma_min_max_bounds(a.maximum.z, b.maximum.z);
}

} // verus!
