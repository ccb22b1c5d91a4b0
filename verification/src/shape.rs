//! The choices that shapes make among numbers they have computed: which
//! root of a sphere counts, which part of a ray lies in a medium, and
//! which face of a cube a direction points at.

use crate::geom::V3;
use crate::scalar::{lemma_neg, Scalar};
use vstd::prelude::*;

verus! {

/// Whether `t` lies outside the range from `t_min` to `t_max`. What is not
/// a number lies outside every range.
pub open spec fn is_outside(t: Scalar, t_min: Scalar, t_max: Scalar) -> bool {
    t.is_nan() || t.lt(t_min) || t_max.lt(t)
}

/// The root that counts of the two roots of a sphere: the nearer one unless
/// it lies outside the range, then the farther one unless that lies outside
/// too.
pub open spec fn root_of(near: Scalar, far: Scalar, t_min: Scalar, t_max: Scalar) -> Option<
    Scalar,
> {
    if !is_outside(near, t_min, t_max) {
        Some(near)
    } else if !is_outside(far, t_min, t_max) {
        Some(far)
    } else {
        None
    }
}

/// The root that counts of the two roots of a sphere.
pub fn pick_root(near: Scalar, far: Scalar, t_min: Scalar, t_max: Scalar) -> (r: Option<Scalar>)
    ensures
        r == root_of(near, far, t_min, t_max),
{
    if !(near.nan() || near.less_than(t_min) || t_max.less_than(near)) {
        Some(near)
    } else if !(far.nan() || far.less_than(t_min) || t_max.less_than(far)) {
        Some(far)
    } else {
        None
    }
}

/// The part of a ray that lies inside a medium which the ray enters at
/// `enter` and leaves at `exit`, cut to the range from `t_min` to `t_max`
/// and to what lies ahead of the origin; nothing where the part is empty.
pub open spec fn span_of(enter: Scalar, exit: Scalar, t_min: Scalar, t_max: Scalar) -> Option<
    (Scalar, Scalar),
> {
    let from = if enter.lt(t_min) {
        t_min
    } else {
        enter
    };
    let to = if t_max.lt(exit) {
        t_max
    } else {
        exit
    };
    if to.le(from) {
        None
    } else if from.lt(Scalar::zero_spec()) {
        Some((Scalar::zero_spec(), to))
    } else {
        Some((from, to))
    }
}

/// The part of a ray that lies inside a medium.
pub fn medium_span(enter: Scalar, exit: Scalar, t_min: Scalar, t_max: Scalar) -> (r: Option<
    (Scalar, Scalar),
>)
    ensures
        r == span_of(enter, exit, t_min, t_max),
{
    let from = if enter.less_than(t_min) {
        t_min
    } else {
        enter
    };
    let to = if t_max.less_than(exit) {
        t_max
    } else {
        exit
    };
    if to.at_most(from) {
        None
    } else if from.less_than(Scalar::zero()) {
        Some((Scalar::zero(), to))
    } else {
        Some((from, to))
    }
}

/// How rough a metal is: `fuzz` kept between zero and one, so zero where it
/// is below zero, and one where it is above one or not a number.
pub open spec fn fuzz_of(fuzz: Scalar) -> Scalar {
    fuzz.saturated()
}

/// How rough a metal is.
pub fn limit_fuzz(fuzz: Scalar) -> (r: Scalar)
    ensures
        r == fuzz_of(fuzz),
{
    fuzz.saturate()
}

/// The face of a cube that a direction points at, and where on it: the
/// place is `(u, v)` on a face that reaches from `-max_axis` to `max_axis`.
#[derive(Debug, Copy, Clone, PartialEq, Eq, Structural)]
pub struct CubeFace {
    /// 0 and 1 are the faces on x, 2 and 3 those on y, 4 and 5 those on z.
    pub index: u8,
    pub u: Scalar,
    pub v: Scalar,
    pub max_axis: Scalar,
}

/// Whether the coordinate on this axis is the largest without its sign.
pub open spec fn is_large(a: Scalar, b: Scalar, c: Scalar) -> bool {
    b.abs_of().le(a.abs_of()) && c.abs_of().le(a.abs_of())
}

/// Whether `a` is above zero.
pub open spec fn is_positive(a: Scalar) -> bool {
    Scalar::zero_spec().lt(a)
}

/// The face that `p` points at: the one on the axis of its largest
/// coordinate, x before y before z where they tie. A direction with a
/// coordinate that is not a number points at the middle of face 0 of a
/// cube without size.
pub open spec fn cube_face_of(p: V3) -> CubeFace {
    if is_large(p.x, p.y, p.z) {
        if is_positive(p.x) {
            CubeFace { index: 0, u: p.z.neg_of(), v: p.y, max_axis: p.x.abs_of() }
        } else {
            CubeFace { index: 1, u: p.z, v: p.y, max_axis: p.x.abs_of() }
        }
    } else if is_large(p.y, p.x, p.z) {
        if is_positive(p.y) {
            CubeFace { index: 3, u: p.x, v: p.z.neg_of(), max_axis: p.y.abs_of() }
        } else {
            CubeFace { index: 2, u: p.x, v: p.z, max_axis: p.y.abs_of() }
        }
    } else if is_large(p.z, p.x, p.y) {
        if is_positive(p.z) {
            CubeFace { index: 4, u: p.x, v: p.y, max_axis: p.z.abs_of() }
        } else {
            CubeFace { index: 5, u: p.x.neg_of(), v: p.y, max_axis: p.z.abs_of() }
        }
    } else {
        CubeFace {
            index: 0,
            u: Scalar::zero_spec(),
            v: Scalar::zero_spec(),
            max_axis: Scalar::zero_spec(),
        }
    }
}

/// The face of a cube that `p` points at. The place on the face never lies
/// beyond its edges.
pub fn cube_face(p: V3) -> (r: CubeFace)
    ensures
        r == cube_face_of(p),
        r.index < 6,
        p.is_numeric() ==> r.u.abs_of().le(r.max_axis) && r.v.abs_of().le(r.max_axis),
{
    proof {
        lemma_neg(p.x);
        lemma_neg(p.y);
        lemma_neg(p.z);
    }
    let ax = p.x.abs();
    let ay = p.y.abs();
    let az = p.z.abs();
    let zero = Scalar::zero();
    if ay.at_most(ax) && az.at_most(ax) {
        if zero.less_than(p.x) {
            CubeFace { index: 0, u: p.z.neg(), v: p.y, max_axis: ax }
        } else {
            CubeFace { index: 1, u: p.z, v: p.y, max_axis: ax }
        }
    } else if ax.at_most(ay) && az.at_most(ay) {
        if zero.less_than(p.y) {
            CubeFace { index: 3, u: p.x, v: p.z.neg(), max_axis: ay }
        } else {
            CubeFace { index: 2, u: p.x, v: p.z, max_axis: ay }
        }
    } else if ax.at_most(az) && ay.at_most(az) {
        if zero.less_than(p.z) {
            CubeFace { index: 4, u: p.x, v: p.y, max_axis: az }
        } else {
            CubeFace { index: 5, u: p.x.neg(), v: p.y, max_axis: az }
        }
    } else {
        CubeFace { index: 0, u: zero, v: zero, max_axis: zero }
    }
}

} // verus!
