//! The nearest hit: what a search of the hierarchy and a scan of all
//! things find, and why the two agree.
//!
//! A search asks two questions, each with a far limit: whether the ray
//! crosses a box, and where it hits a thing. Both are answered by functions
//! of the caller, which may answer one thing now and another then. What is
//! found is stated twice: as a relation over the answers that the functions
//! may give (`may_find`, `may_scan`), and, for functions that keep to one
//! answer each, as that answer's result (`found`, `scanned`). Where,
//! besides, the answers fit together, the hierarchy finds the distance that
//! the scan finds.

use crate::bvh::{
    built_over, child_bounds, child_leaves, gives_boxes, items_of, limit_of, node_fits,
    node_leaves, paired, Bounded, BvhChild, BvhError, BvhNode, Hit, Intersect,
};
use crate::geom::BoundingBox;
use crate::scalar::Scalar;
use vstd::prelude::*;

verus! {

/// Whether `probe` keeps to `answer`: asked about a thing with a far limit,
/// it gives what `answer` says and nothing else.
pub open spec fn agrees<'a, T: 'a, S, M: 'a, FH: Fn(&'a T, Scalar) -> Option<Hit<'a, S, M>>>(
    probe: FH,
    answer: spec_fn(&'a T, Scalar) -> Option<Hit<'a, S, M>>,
) -> bool {
    forall|item: &'a T, limit: Scalar, r: Option<Hit<'a, S, M>>| #[trigger]
        call_ensures(probe, (item, limit), r) ==> r == answer(item, limit)
}

/// Whether `crosses` keeps to `crossing`: asked about a box with a far
/// limit, it gives what `crossing` says and nothing else.
pub open spec fn agrees_crossing<FB: Fn(&BoundingBox, Scalar) -> bool>(
    crosses: FB,
    crossing: spec_fn(BoundingBox, Scalar) -> bool,
) -> bool {
    forall|bounds: &BoundingBox, limit: Scalar, r: bool| #[trigger]
        call_ensures(crosses, (bounds, limit), r) ==> r == crossing(*bounds, limit)
}

/// The distance of a hit, if there is one.
pub open spec fn distance<'a, S, M>(hit: Option<Hit<'a, S, M>>) -> Option<Scalar> {
    match hit {
        Some(h) => Some(h.t),
        None => None,
    }
}

/// The later of two hits: the second where there is one, and else the first.
pub open spec fn later_of<'a, S, M>(first: Option<Hit<'a, S, M>>, second: Option<Hit<'a, S, M>>)
    -> Option<Hit<'a, S, M>> {
    match second {
        Some(h) => Some(h),
        None => first,
    }
}

/// What the search finds below a child up to `limit`: the answer of the
/// thing, or what the search of the node finds.
pub open spec fn found_below<'a, T: 'a, S, M: 'a>(
    child: &'a BvhChild<T>,
    crossing: spec_fn(BoundingBox, Scalar) -> bool,
    answer: spec_fn(&'a T, Scalar) -> Option<Hit<'a, S, M>>,
    limit: Scalar,
) -> Option<Hit<'a, S, M>>
    decreases child,
{
    match child {
        BvhChild::Leaf(leaf) => answer(&leaf.item, limit),
        BvhChild::Node(node) => found(&**node, crossing, answer, limit),
    }
}

/// What the search finds on one side of a node up to `limit`.
pub open spec fn found_beside<'a, T: 'a, S, M: 'a>(
    side: &'a Option<BvhChild<T>>,
    crossing: spec_fn(BoundingBox, Scalar) -> bool,
    answer: spec_fn(&'a T, Scalar) -> Option<Hit<'a, S, M>>,
    limit: Scalar,
) -> Option<Hit<'a, S, M>>
    decreases side,
{
    match side {
        Some(child) => found_below(child, crossing, answer, limit),
        None => None,
    }
}

/// What the search finds below a node up to `limit`: nothing unless the ray
/// crosses the box of the node; else what it finds to the right, up to
/// where it found something to the left; and failing that, what it found to
/// the left.
pub open spec fn found<'a, T: 'a, S, M: 'a>(
    node: &'a BvhNode<T>,
    crossing: spec_fn(BoundingBox, Scalar) -> bool,
    answer: spec_fn(&'a T, Scalar) -> Option<Hit<'a, S, M>>,
    limit: Scalar,
) -> Option<Hit<'a, S, M>>
    decreases node,
{
    if crossing(node.bounding_box, limit) {
        let left = found_beside(&node.left, crossing, answer, limit);
        let right = found_beside(&node.right, crossing, answer, limit_of(limit, left));
        later_of(left, right)
    } else {
        None
    }
}

/// What `probe` may answer: whether `r` is an answer that it may give when
/// it is asked about a thing with a far limit.
pub open spec fn asked<'a, T: 'a, S, M: 'a, FH: Fn(&'a T, Scalar) -> Option<Hit<'a, S, M>>>(
    probe: FH,
) -> spec_fn(&'a T, Scalar, Option<Hit<'a, S, M>>) -> bool {
    |item: &'a T, limit: Scalar, r: Option<Hit<'a, S, M>>| call_ensures(probe, (item, limit), r)
}

/// What `crosses` may answer: whether `r` is an answer that it may give
/// when it is asked about a box with a far limit.
pub open spec fn asked_crossing<FB: Fn(&BoundingBox, Scalar) -> bool>(crosses: FB) -> spec_fn(
    BoundingBox,
    Scalar,
    bool,
) -> bool {
    |bounds: BoundingBox, limit: Scalar, r: bool| call_ensures(crosses, (&bounds, limit), r)
}

/// Whether the search below a child up to `limit` may find `r`, each
/// question getting one of the answers that it may get: an answer of the
/// thing, or what the search of the node may find.
pub open spec fn may_find_below<'a, T: 'a, S, M: 'a>(
    child: &'a BvhChild<T>,
    crossings: spec_fn(BoundingBox, Scalar, bool) -> bool,
    answers: spec_fn(&'a T, Scalar, Option<Hit<'a, S, M>>) -> bool,
    limit: Scalar,
    r: Option<Hit<'a, S, M>>,
) -> bool
    decreases child,
{
    match child {
        BvhChild::Leaf(leaf) => answers(&leaf.item, limit, r),
        BvhChild::Node(node) => may_find(&**node, crossings, answers, limit, r),
    }
}

/// Whether the search on one side of a node up to `limit` may find `r`.
pub open spec fn may_find_beside<'a, T: 'a, S, M: 'a>(
    side: &'a Option<BvhChild<T>>,
    crossings: spec_fn(BoundingBox, Scalar, bool) -> bool,
    answers: spec_fn(&'a T, Scalar, Option<Hit<'a, S, M>>) -> bool,
    limit: Scalar,
    r: Option<Hit<'a, S, M>>,
) -> bool
    decreases side,
{
    match side {
        Some(child) => may_find_below(child, crossings, answers, limit, r),
        None => r is None,
    }
}

/// Whether the search below a node up to `limit` may find `r`, each
/// question getting one of the answers that it may get. The things may
/// answer at random, so the same search may find one thing now and another
/// then. Nothing is found where the ray is said not to cross the box of the
/// node. Where it is said to cross it, the left side is searched up to
/// `limit` and the right side up to where the left side was hit, and what
/// is found is the hit on the right, or failing that the hit on the left.
pub open spec fn may_find<'a, T: 'a, S, M: 'a>(
    node: &'a BvhNode<T>,
    crossings: spec_fn(BoundingBox, Scalar, bool) -> bool,
    answers: spec_fn(&'a T, Scalar, Option<Hit<'a, S, M>>) -> bool,
    limit: Scalar,
    r: Option<Hit<'a, S, M>>,
) -> bool
    decreases node,
{
    ||| (crossings(node.bounding_box, limit, false) && r is None)
    ||| (crossings(node.bounding_box, limit, true) && exists|
        left: Option<Hit<'a, S, M>>,
        right: Option<Hit<'a, S, M>>,
    |
        {
            &&& r == #[trigger] later_of(left, right)
            &&& may_find_beside(&node.left, crossings, answers, limit, left)
            &&& may_find_beside(&node.right, crossings, answers, limit_of(limit, left), right)
        })
}

/// Whether the scan of the things from the one at `i` on may find `r`,
/// where the things before gave `so_far` and moved the limit to `limit`:
/// each thing gives one of the answers that it may give up to where the
/// last hit was, and the last hit counts.
pub open spec fn may_scan_from<'a, T: 'a, S, M: 'a>(
    items: &'a Vec<T>,
    answers: spec_fn(&'a T, Scalar, Option<Hit<'a, S, M>>) -> bool,
    i: int,
    limit: Scalar,
    so_far: Option<Hit<'a, S, M>>,
    r: Option<Hit<'a, S, M>>,
) -> bool
    decreases items@.len() - i,
{
    if i < 0 || i >= items@.len() {
        r == so_far
    } else {
        exists|hit: Option<Hit<'a, S, M>>| #[trigger]
            answers(&items@[i], limit, hit) && if hit is Some {
                may_scan_from(items, answers, i + 1, limit_of(limit, hit), hit, r)
            } else {
                may_scan_from(items, answers, i + 1, limit, so_far, r)
            }
    }
}

/// Whether the scan of all things up to `limit` may find `r`. The things
/// may answer at random, so the same scan may find one thing now and
/// another then.
pub open spec fn may_scan<'a, T: 'a, S, M: 'a>(
    items: &'a Vec<T>,
    answers: spec_fn(&'a T, Scalar, Option<Hit<'a, S, M>>) -> bool,
    limit: Scalar,
    r: Option<Hit<'a, S, M>>,
) -> bool {
    may_scan_from(items, answers, 0, limit, None, r)
}

/// Whether every answer that `narrow` allows is one that `wide` allows.
pub open spec fn answers_within<'a, T: 'a, S, M: 'a>(
    narrow: spec_fn(&'a T, Scalar, Option<Hit<'a, S, M>>) -> bool,
    wide: spec_fn(&'a T, Scalar, Option<Hit<'a, S, M>>) -> bool,
) -> bool {
    forall|item: &'a T, limit: Scalar, r: Option<Hit<'a, S, M>>| #[trigger]
        narrow(item, limit, r) ==> wide(item, limit, r)
}

/// Whether every answer about boxes that `narrow` allows is one that
/// `wide` allows.
pub open spec fn crossings_within(
    narrow: spec_fn(BoundingBox, Scalar, bool) -> bool,
    wide: spec_fn(BoundingBox, Scalar, bool) -> bool,
) -> bool {
    forall|bounds: BoundingBox, limit: Scalar, r: bool| #[trigger]
        narrow(bounds, limit, r) ==> wide(bounds, limit, r)
}

/// What a scan may find where the things may give some answers, it may
/// find where they may give more.
pub proof fn lemma_may_scan_widens<'a, T: 'a, S, M: 'a>(
    items: &'a Vec<T>,
    narrow: spec_fn(&'a T, Scalar, Option<Hit<'a, S, M>>) -> bool,
    wide: spec_fn(&'a T, Scalar, Option<Hit<'a, S, M>>) -> bool,
    i: int,
    limit: Scalar,
    so_far: Option<Hit<'a, S, M>>,
    r: Option<Hit<'a, S, M>>,
)
    requires
        answers_within(narrow, wide),
        may_scan_from(items, narrow, i, limit, so_far, r),
    ensures
        may_scan_from(items, wide, i, limit, so_far, r),
    decreases items@.len() - i,
{
    if 0 <= i < items@.len() {
        let hit = choose|hit: Option<Hit<'a, S, M>>| #[trigger]
            narrow(&items@[i], limit, hit) && if hit is Some {
                may_scan_from(items, narrow, i + 1, limit_of(limit, hit), hit, r)
            } else {
                may_scan_from(items, narrow, i + 1, limit, so_far, r)
            };
        if hit is Some {
            lemma_may_scan_widens(items, narrow, wide, i + 1, limit_of(limit, hit), hit, r);
        } else {
            lemma_may_scan_widens(items, narrow, wide, i + 1, limit, so_far, r);
        }
        assert(wide(&items@[i], limit, hit));
    }
}

/// What a search may find on one side of a node where the questions may
/// get some answers, it may find where they may get more.
pub proof fn lemma_may_find_beside_widens<'a, T: 'a, S, M: 'a>(
    side: &'a Option<BvhChild<T>>,
    narrow_crossings: spec_fn(BoundingBox, Scalar, bool) -> bool,
    narrow: spec_fn(&'a T, Scalar, Option<Hit<'a, S, M>>) -> bool,
    wide_crossings: spec_fn(BoundingBox, Scalar, bool) -> bool,
    wide: spec_fn(&'a T, Scalar, Option<Hit<'a, S, M>>) -> bool,
    limit: Scalar,
    r: Option<Hit<'a, S, M>>,
)
    requires
        crossings_within(narrow_crossings, wide_crossings),
        answers_within(narrow, wide),
        may_find_beside(side, narrow_crossings, narrow, limit, r),
    ensures
        may_find_beside(side, wide_crossings, wide, limit, r),
    decreases side,
{
    match side {
        Some(BvhChild::Node(node)) => {
            lemma_may_find_widens(
                &**node,
                narrow_crossings,
                narrow,
                wide_crossings,
                wide,
                limit,
                r,
            );
        },
        Some(BvhChild::Leaf(leaf)) => {
            assert(narrow(&leaf.item, limit, r));
        },
        None => {},
    }
}

/// What a search may find below a node where the questions may get some
/// answers, it may find where they may get more.
pub proof fn lemma_may_find_widens<'a, T: 'a, S, M: 'a>(
    node: &'a BvhNode<T>,
    narrow_crossings: spec_fn(BoundingBox, Scalar, bool) -> bool,
    narrow: spec_fn(&'a T, Scalar, Option<Hit<'a, S, M>>) -> bool,
    wide_crossings: spec_fn(BoundingBox, Scalar, bool) -> bool,
    wide: spec_fn(&'a T, Scalar, Option<Hit<'a, S, M>>) -> bool,
    limit: Scalar,
    r: Option<Hit<'a, S, M>>,
)
    requires
        crossings_within(narrow_crossings, wide_crossings),
        answers_within(narrow, wide),
        may_find(node, narrow_crossings, narrow, limit, r),
    ensures
        may_find(node, wide_crossings, wide, limit, r),
    decreases node,
{
    if narrow_crossings(node.bounding_box, limit, false) && r is None {
        assert(wide_crossings(node.bounding_box, limit, false));
    } else {
        assert(narrow_crossings(node.bounding_box, limit, true));
        assert(wide_crossings(node.bounding_box, limit, true));
        let (left, right) = choose|left: Option<Hit<'a, S, M>>, right: Option<Hit<'a, S, M>>|
            {
                &&& r == #[trigger] later_of(left, right)
                &&& may_find_beside(&node.left, narrow_crossings, narrow, limit, left)
                &&& may_find_beside(
                    &node.right,
                    narrow_crossings,
                    narrow,
                    limit_of(limit, left),
                    right,
                )
            };
        lemma_may_find_beside_widens(
            &node.left,
            narrow_crossings,
            narrow,
            wide_crossings,
            wide,
            limit,
            left,
        );
        lemma_may_find_beside_widens(
            &node.right,
            narrow_crossings,
            narrow,
            wide_crossings,
            wide,
            limit_of(limit, left),
            right,
        );
    }
}

/// What the scan finds among the things from the one at `i` on, where the
/// things before gave `so_far` and moved the limit to `limit`: each thing
/// is asked up to where the last hit was, and the last hit counts.
pub open spec fn scanned_from<'a, T: 'a, S, M: 'a>(
    items: &'a Vec<T>,
    answer: spec_fn(&'a T, Scalar) -> Option<Hit<'a, S, M>>,
    i: int,
    limit: Scalar,
    so_far: Option<Hit<'a, S, M>>,
) -> Option<Hit<'a, S, M>>
    decreases items@.len() - i,
{
    if i < 0 || i >= items@.len() {
        so_far
    } else {
        let hit = answer(&items@[i], limit);
        if hit is Some {
            scanned_from(items, answer, i + 1, limit_of(limit, hit), hit)
        } else {
            scanned_from(items, answer, i + 1, limit, so_far)
        }
    }
}

/// What the scan of all things finds up to `limit`.
pub open spec fn scanned<'a, T: 'a, S, M: 'a>(
    items: &'a Vec<T>,
    answer: spec_fn(&'a T, Scalar) -> Option<Hit<'a, S, M>>,
    limit: Scalar,
) -> Option<Hit<'a, S, M>> {
    scanned_from(items, answer, 0, limit, None)
}

/// Asks every thing in turn, each up to where the last hit was, and gives
/// the last hit. Whatever answers `probe` keeps to, what is found is what
/// `scanned` says of them.
pub fn scan<'a, T, S, M, FH>(items: &'a Vec<T>, probe: &FH, limit: Scalar) -> (r: Option<
    Hit<'a, S, M>,
>) where FH: Fn(&'a T, Scalar) -> Option<Hit<'a, S, M>>
    requires
        forall|x: &'a T, l: Scalar| call_requires(*probe, (x, l)),
    ensures
        may_scan(items, asked(*probe), limit, r),
        items@.len() == 0 ==> r is None,
        forall|answer: spec_fn(&'a T, Scalar) -> Option<Hit<'a, S, M>>| #[trigger]
            agrees(*probe, answer) ==> r == scanned(items, answer, limit),
{
    let mut found: Option<Hit<'a, S, M>> = None;
    let mut closest_so_far = limit;
    let n = items.len();
    let mut i: usize = 0;
    while i < n
        invariant
            i <= n == items@.len(),
            n == 0 ==> found is None,
            forall|x: &'a T, l: Scalar| call_requires(*probe, (x, l)),
            forall|end: Option<Hit<'a, S, M>>| #[trigger]
                may_scan_from(items, asked(*probe), i as int, closest_so_far, found, end)
                    ==> may_scan(items, asked(*probe), limit, end),
            forall|answer: spec_fn(&'a T, Scalar) -> Option<Hit<'a, S, M>>| #[trigger]
                agrees(*probe, answer) ==> scanned(items, answer, limit) == scanned_from(
                    items,
                    answer,
                    i as int,
                    closest_so_far,
                    found,
                ),
        decreases n - i,
    {
        let ghost limit_before = closest_so_far;
        let ghost found_before = found;
        let hit = probe(&items[i], closest_so_far);
        if hit.is_some() {
            closest_so_far = crate::bvh::limit_after(closest_so_far, &hit);
            found = hit;
        }
        proof {
            assert forall|end: Option<Hit<'a, S, M>>| #[trigger]
                may_scan_from(
                    items,
                    asked(*probe),
                    i + 1,
                    closest_so_far,
                    found,
                    end,
                ) implies may_scan(items, asked(*probe), limit, end) by {
                assert(asked(*probe)(&items@[i as int], limit_before, hit));
                assert(may_scan_from(
                    items,
                    asked(*probe),
                    i as int,
                    limit_before,
                    found_before,
                    end,
                ));
            }
        }
        i += 1;
    }
    assert(may_scan_from(items, asked(*probe), n as int, closest_so_far, found, found));
    found
}

/// How far `answer` says that the ray reaches before it hits a thing, asked
/// up to `limit`.
pub open spec fn reach<'a, T: 'a, S, M: 'a>(
    answer: spec_fn(&'a T, Scalar) -> Option<Hit<'a, S, M>>,
    item: &'a T,
    limit: Scalar,
) -> Option<Scalar> {
    distance(answer(item, limit))
}

/// A distance, where it lies within `limit`.
pub open spec fn within(t: Option<Scalar>, limit: Scalar) -> Option<Scalar> {
    match t {
        Some(t) => if t.key() <= limit.key() {
            Some(t)
        } else {
            None
        },
        None => None,
    }
}

/// The answers fit together: asked up to a nearer limit, a thing is hit
/// where it is hit up to the farther one, if that lies within the nearer
/// limit, and else not at all. So no thing is hit beyond the limit.
pub open spec fn consistent<'a, T: 'a, S, M: 'a>(
    answer: spec_fn(&'a T, Scalar) -> Option<Hit<'a, S, M>>,
) -> bool {
    forall|item: &'a T, far: Scalar, near: Scalar|
        #![trigger reach(answer, item, far), reach(answer, item, near)]
        near.key() <= far.key() ==> reach(answer, item, near) == within(
            reach(answer, item, far),
            near,
        )
}

/// The answers about boxes are on the safe side: a ray that hits a thing up
/// to some limit crosses, up to that limit, every box that holds the box of
/// the thing.
pub open spec fn conservative<'a, T: 'a, S, M: 'a>(
    crossing: spec_fn(BoundingBox, Scalar) -> bool,
    answer: spec_fn(&'a T, Scalar) -> Option<Hit<'a, S, M>>,
) -> bool {
    forall|bounds: BoundingBox, leaf: &'a Bounded<T>, limit: Scalar|
        #![trigger bounds.holds(leaf.bounds), reach(answer, &leaf.item, limit)]
        bounds.holds(leaf.bounds) && reach(answer, &leaf.item, limit) is Some ==> crossing(
            bounds,
            limit,
        )
}

/// Every thing stands in a well-formed box.
pub open spec fn well_boxed<T>(leaves: Seq<Bounded<T>>) -> bool {
    forall|i: int| 0 <= i < leaves.len() ==> (#[trigger] leaves[i]).bounds.well_formed()
}

/// Whether `t` is the least distance at which the ray hits one of `items`
/// up to `limit`, and nothing where it hits none.
pub open spec fn nearest_among<'a, T: 'a, S, M: 'a>(
    items: Seq<T>,
    answer: spec_fn(&'a T, Scalar) -> Option<Hit<'a, S, M>>,
    limit: Scalar,
    t: Option<Scalar>,
) -> bool {
    match t {
        None => forall|i: int|
            0 <= i < items.len() ==> reach(answer, &#[trigger] items[i], limit) is None,
        Some(t) => {
            &&& exists|i: int|
                0 <= i < items.len() && reach(answer, &#[trigger] items[i], limit) == Some(t)
            &&& forall|j: int|
                0 <= j < items.len() && reach(answer, &#[trigger] items[j], limit) is Some
                    ==> t.key() <= reach(answer, &items[j], limit)->Some_0.key()
        },
    }
}

/// There is one nearest distance at most.
pub proof fn lemma_nearest_is_one<'a, T: 'a, S, M: 'a>(
    items: Seq<T>,
    answer: spec_fn(&'a T, Scalar) -> Option<Hit<'a, S, M>>,
    limit: Scalar,
    a: Option<Scalar>,
    b: Option<Scalar>,
)
    requires
        nearest_among(items, answer, limit, a),
        nearest_among(items, answer, limit, b),
    ensures
        a == b,
{
    match (a, b) {
        (Some(x), Some(y)) => {
            let i = choose|i: int|
                0 <= i < items.len() && reach(answer, &#[trigger] items[i], limit) == Some(x);
            let j = choose|j: int|
                0 <= j < items.len() && reach(answer, &#[trigger] items[j], limit) == Some(y);
            assert(x.key() <= y.key());
            assert(y.key() <= x.key());
            crate::scalar::lemma_key_decides(x, y);
        },
        (Some(x), None) => {
            let i = choose|i: int|
                0 <= i < items.len() && reach(answer, &#[trigger] items[i], limit) == Some(x);
        },
        (None, Some(y)) => {
            let j = choose|j: int|
                0 <= j < items.len() && reach(answer, &#[trigger] items[j], limit) == Some(y);
        },
        (None, None) => {},
    }
}

/// The nearest distance is that of the things, in whatever order they
/// stand.
pub proof fn lemma_nearest_by_content<'a, T: 'a, S, M: 'a>(
    a: Seq<T>,
    b: Seq<T>,
    answer: spec_fn(&'a T, Scalar) -> Option<Hit<'a, S, M>>,
    limit: Scalar,
    t: Option<Scalar>,
)
    requires
        a.to_multiset() == b.to_multiset(),
        nearest_among(a, answer, limit, t),
    ensures
        nearest_among(b, answer, limit, t),
{
    broadcast use vstd::seq_lib::group_to_multiset_ensures;

    assert forall|j: int| 0 <= j < b.len() implies a.contains(#[trigger] b[j]) by {
        assert(b.to_multiset().count(b[j]) > 0);
    }
    assert forall|i: int| 0 <= i < a.len() implies b.contains(#[trigger] a[i]) by {
        assert(a.to_multiset().count(a[i]) > 0);
    }
    match t {
        None => {
            assert forall|j: int| 0 <= j < b.len() implies reach(
                answer,
                &#[trigger] b[j],
                limit,
            ) is None by {
                let i = choose|i: int| 0 <= i < a.len() && a[i] == b[j];
                assert(reach(answer, &a[i], limit) is None);
            }
        },
        Some(x) => {
            let i = choose|i: int|
                0 <= i < a.len() && reach(answer, &#[trigger] a[i], limit) == Some(x);
            let k = choose|k: int| 0 <= k < b.len() && b[k] == a[i];
            assert(reach(answer, &b[k], limit) == Some(x));
            assert forall|j: int|
                0 <= j < b.len() && reach(answer, &#[trigger] b[j], limit) is Some implies x.key()
                <= reach(answer, &b[j], limit)->Some_0.key() by {
                let i = choose|i: int| 0 <= i < a.len() && a[i] == b[j];
                assert(reach(answer, &a[i], limit) is Some);
            }
        },
    }
}

/// What is nearest on two sides is nearest on both together, where the
/// second side was asked up to what the first side gave.
pub proof fn lemma_nearest_of_two<'a, T: 'a, S, M: 'a>(
    first: Seq<T>,
    second: Seq<T>,
    answer: spec_fn(&'a T, Scalar) -> Option<Hit<'a, S, M>>,
    limit: Scalar,
    t_first: Option<Scalar>,
    t_second: Option<Scalar>,
)
    requires
        consistent(answer),
        nearest_among(first, answer, limit, t_first),
        nearest_among(
            second,
            answer,
            match t_first {
                Some(t) => t,
                None => limit,
            },
            t_second,
        ),
    ensures
        nearest_among(
            first + second,
            answer,
            limit,
            match t_second {
                Some(t) => Some(t),
                None => t_first,
            },
        ),
{
    let all = first + second;
    let near = match t_first {
        Some(t) => t,
        None => limit,
    };
    // the first side gave a distance within the limit
    if t_first is Some {
        let i = choose|i: int|
            0 <= i < first.len() && reach(answer, &#[trigger] first[i], limit) == t_first;
        assert(reach(answer, &first[i], limit) == within(reach(answer, &first[i], limit), limit));
    }
    assert(near.key() <= limit.key());
    // up to the nearer limit, the things of the second side answer as up to the farther one
    assert forall|j: int| 0 <= j < second.len() implies reach(answer, &#[trigger] second[j], near)
        == within(reach(answer, &second[j], limit), near) by {
        assert(reach(answer, &second[j], near) == within(reach(answer, &second[j], limit), near));
    }
    match t_second {
        Some(ts) => {
            let j = choose|j: int|
                0 <= j < second.len() && reach(answer, &#[trigger] second[j], near) == Some(ts);
            assert(reach(answer, &second[j], limit) == Some(ts));
            assert(all[first.len() + j] == second[j]);
            assert(reach(answer, &all[first.len() + j], limit) == Some(ts));
            assert forall|k: int|
                0 <= k < all.len() && reach(answer, &#[trigger] all[k], limit) is Some implies ts.key()
                <= reach(answer, &all[k], limit)->Some_0.key() by {
                if k < first.len() {
                    assert(all[k] == first[k]);
                    assert(reach(answer, &first[k], limit) is Some);
                } else {
                    let m = k - first.len();
                    assert(all[k] == second[m]);
                    assert(reach(answer, &second[m], near) == within(
                        reach(answer, &second[m], limit),
                        near,
                    ));
                }
            }
        },
        None => {
            match t_first {
                Some(tf) => {
                    let i = choose|i: int|
                        0 <= i < first.len() && reach(answer, &#[trigger] first[i], limit) == Some(
                            tf,
                        );
                    assert(all[i] == first[i]);
                    assert(reach(answer, &all[i], limit) == Some(tf));
                    assert forall|k: int|
                        0 <= k < all.len() && reach(answer, &#[trigger] all[k], limit) is Some implies tf.key()
                        <= reach(answer, &all[k], limit)->Some_0.key() by {
                        if k < first.len() {
                            assert(all[k] == first[k]);
                            assert(reach(answer, &first[k], limit) is Some);
                        } else {
                            let m = k - first.len();
                            assert(all[k] == second[m]);
                            assert(reach(answer, &second[m], near) is None);
                        }
                    }
                },
                None => {
                    assert forall|k: int| 0 <= k < all.len() implies reach(
                        answer,
                        &#[trigger] all[k],
                        limit,
                    ) is None by {
                        if k < first.len() {
                            assert(all[k] == first[k]);
                        } else {
                            let m = k - first.len();
                            assert(all[k] == second[m]);
                            assert(reach(answer, &second[m], near) is None);
                        }
                    }
                },
            }
        },
    }
}

/// Things in well-formed boxes stand in well-formed boxes in whatever order.
pub proof fn lemma_well_boxed_by_content<T>(a: Seq<Bounded<T>>, b: Seq<Bounded<T>>)
    requires
        a.to_multiset() == b.to_multiset(),
        well_boxed(a),
    ensures
        well_boxed(b),
{
    broadcast use vstd::seq_lib::group_to_multiset_ensures;

    assert forall|j: int| 0 <= j < b.len() implies (#[trigger] b[j]).bounds.well_formed() by {
        assert(b.to_multiset().count(b[j]) > 0);
        assert(a.contains(b[j]));
        let i = choose|i: int| 0 <= i < a.len() && a[i] == b[j];
        assert(a[i].bounds.well_formed());
    }
}

/// A box that holds a box holds what that box holds.
pub proof fn lemma_holds_within(a: BoundingBox, b: BoundingBox, c: BoundingBox)
    requires
        a.holds(b),
        b.holds(c),
    ensures
        a.holds(c),
{
}

/// The box of a child holds the boxes of all things below the child, where
/// the boxes fit and every thing stands in a well-formed box.
pub proof fn lemma_child_holds_leaves<T>(child: BvhChild<T>)
    requires
        crate::bvh::child_fits(child),
        well_boxed(child_leaves(child)),
    ensures
        child_bounds(child).well_formed(),
        forall|i: int|
            0 <= i < child_leaves(child).len() ==> child_bounds(child).holds(
                (#[trigger] child_leaves(child)[i]).bounds,
            ),
    decreases child,
{
    match child {
        BvhChild::Leaf(leaf) => {
            assert(child_leaves(child)[0] == leaf);
        },
        BvhChild::Node(node) => {
            lemma_node_holds_leaves(*node);
        },
    }
}

/// The box of a node holds the boxes of all things below the node, where
/// the boxes fit and every thing stands in a well-formed box.
pub proof fn lemma_node_holds_leaves<T>(node: BvhNode<T>)
    requires
        node_fits(node),
        well_boxed(node_leaves(node)),
    ensures
        node.bounding_box.well_formed(),
        forall|i: int|
            0 <= i < node_leaves(node).len() ==> node.bounding_box.holds(
                (#[trigger] node_leaves(node)[i]).bounds,
            ),
    decreases node,
{
    let all = node_leaves(node);
    match (node.left, node.right) {
        (Some(l), Some(r)) => {
            let ll = child_leaves(l);
            let rl = child_leaves(r);
            assert(all == ll + rl);
            assert forall|i: int| 0 <= i < ll.len() implies (#[trigger] ll[i]).bounds.well_formed() by {
                assert(all[i] == ll[i]);
            }
            assert forall|i: int| 0 <= i < rl.len() implies (#[trigger] rl[i]).bounds.well_formed() by {
                assert(all[ll.len() + i] == rl[i]);
            }
            lemma_child_holds_leaves(l);
            lemma_child_holds_leaves(r);
            crate::geom::lemma_join_holds(child_bounds(l), child_bounds(r));
            assert forall|i: int| 0 <= i < all.len() implies node.bounding_box.holds(
                (#[trigger] all[i]).bounds,
            ) by {
                if i < ll.len() {
                    assert(all[i] == ll[i]);
                    lemma_holds_within(node.bounding_box, child_bounds(l), ll[i].bounds);
                } else {
                    assert(all[i] == rl[i - ll.len()]);
                    lemma_holds_within(node.bounding_box, child_bounds(r), rl[i - ll.len()].bounds);
                }
            }
        },
        (Some(l), None) => {
            let ll = child_leaves(l);
            assert(all =~= ll);
            lemma_child_holds_leaves(l);
        },
        _ => {},
    }
}

/// One of the six sides of a box: the minimum on x, y and z for `side` 0,
/// 1 and 2, and the maximum on x, y and z for 3, 4 and 5.
pub open spec fn side_of(bounds: BoundingBox, side: int) -> Scalar {
    if side == 0 {
        bounds.minimum.x
    } else if side == 1 {
        bounds.minimum.y
    } else if side == 2 {
        bounds.minimum.z
    } else if side == 3 {
        bounds.maximum.x
    } else if side == 4 {
        bounds.maximum.y
    } else {
        bounds.maximum.z
    }
}

/// Whether a thing among `leaves` has that side of its box where `bounds`
/// has it.
pub open spec fn touched<T>(bounds: BoundingBox, leaves: Seq<Bounded<T>>, side: int) -> bool {
    exists|i: int|
        0 <= i < leaves.len() && side_of((#[trigger] leaves[i]).bounds, side) == side_of(
            bounds,
            side,
        )
}

/// Whether `bounds` reaches no farther than the things: each of its six
/// sides is that side of the box of some thing.
pub open spec fn tight<T>(bounds: BoundingBox, leaves: Seq<Bounded<T>>) -> bool {
    forall|side: int| 0 <= side < 6 ==> #[trigger] touched(bounds, leaves, side)
}

/// Each side of the join of two boxes is that side of one of the two.
pub proof fn lemma_join_is_tight(a: BoundingBox, b: BoundingBox, side: int)
    ensures
        side_of(a.join_of(b), side) == side_of(a, side) || side_of(a.join_of(b), side) == side_of(
            b,
            side,
        ),
{
}

/// The box of a child reaches no farther than the things below the child,
/// where the boxes fit.
pub proof fn lemma_child_box_is_tight<T>(child: BvhChild<T>)
    requires
        crate::bvh::child_fits(child),
    ensures
        tight(child_bounds(child), child_leaves(child)),
    decreases child,
{
    match child {
        BvhChild::Leaf(leaf) => {
            assert forall|side: int| 0 <= side < 6 implies #[trigger] touched(
                child_bounds(child),
                child_leaves(child),
                side,
            ) by {
                assert(child_leaves(child)[0] == leaf);
            }
        },
        BvhChild::Node(node) => {
            lemma_node_box_is_tight(*node);
        },
    }
}

/// The box of a node is the union of the boxes of the things below it,
/// where the boxes fit: it holds every one of them, as
/// `lemma_node_holds_leaves` says, and each of its six sides is that side
/// of the box of some thing.
pub proof fn lemma_node_box_is_tight<T>(node: BvhNode<T>)
    requires
        node_fits(node),
    ensures
        tight(node.bounding_box, node_leaves(node)),
    decreases node,
{
    let all = node_leaves(node);
    match (node.left, node.right) {
        (Some(l), Some(r)) => {
            let ll = child_leaves(l);
            let rl = child_leaves(r);
            assert(all == ll + rl);
            lemma_child_box_is_tight(l);
            lemma_child_box_is_tight(r);
            assert forall|side: int| 0 <= side < 6 implies #[trigger] touched(
                node.bounding_box,
                all,
                side,
            ) by {
                lemma_join_is_tight(child_bounds(l), child_bounds(r), side);
                if side_of(node.bounding_box, side) == side_of(child_bounds(l), side) {
                    assert(touched(child_bounds(l), ll, side));
                    let i = choose|i: int|
                        0 <= i < ll.len() && side_of((#[trigger] ll[i]).bounds, side) == side_of(
                            child_bounds(l),
                            side,
                        );
                    assert(all[i] == ll[i]);
                } else {
                    assert(touched(child_bounds(r), rl, side));
                    let i = choose|i: int|
                        0 <= i < rl.len() && side_of((#[trigger] rl[i]).bounds, side) == side_of(
                            child_bounds(r),
                            side,
                        );
                    assert(all[ll.len() + i] == rl[i]);
                }
            }
        },
        (Some(l), None) => {
            let ll = child_leaves(l);
            assert(all =~= ll);
            lemma_child_box_is_tight(l);
            assert forall|side: int| 0 <= side < 6 implies #[trigger] touched(
                node.bounding_box,
                all,
                side,
            ) by {
                assert(touched(child_bounds(l), ll, side));
            }
        },
        _ => {},
    }
}

/// What the search finds below a child is the nearest of the things below
/// it.
pub proof fn lemma_found_below_is_nearest<'a, T: 'a, S, M: 'a>(
    child: &'a BvhChild<T>,
    crossing: spec_fn(BoundingBox, Scalar) -> bool,
    answer: spec_fn(&'a T, Scalar) -> Option<Hit<'a, S, M>>,
    limit: Scalar,
)
    requires
        crate::bvh::child_fits(*child),
        well_boxed(child_leaves(*child)),
        consistent(answer),
        conservative(crossing, answer),
    ensures
        nearest_among(
            items_of(child_leaves(*child)),
            answer,
            limit,
            distance(found_below(child, crossing, answer, limit)),
        ),
    decreases child,
{
    match child {
        BvhChild::Leaf(leaf) => {
            let items = items_of(child_leaves(*child));
            assert(items[0] == leaf.item);
            assert(items.len() == 1);
            assert(reach(answer, &items[0], limit) == distance(
                found_below(child, crossing, answer, limit),
            ));
        },
        BvhChild::Node(node) => {
            lemma_found_is_nearest(&**node, crossing, answer, limit);
        },
    }
}

/// What the search finds below a node is the nearest of the things below
/// it: no nearer thing is lost behind a box or a limit.
pub proof fn lemma_found_is_nearest<'a, T: 'a, S, M: 'a>(
    node: &'a BvhNode<T>,
    crossing: spec_fn(BoundingBox, Scalar) -> bool,
    answer: spec_fn(&'a T, Scalar) -> Option<Hit<'a, S, M>>,
    limit: Scalar,
)
    requires
        node_fits(*node),
        well_boxed(node_leaves(*node)),
        consistent(answer),
        conservative(crossing, answer),
    ensures
        nearest_among(
            items_of(node_leaves(*node)),
            answer,
            limit,
            distance(found(node, crossing, answer, limit)),
        ),
    decreases node,
{
    let leaves = node_leaves(*node);
    let items = items_of(leaves);
    if !crossing(node.bounding_box, limit) {
        lemma_node_holds_leaves(*node);
        assert forall|i: int| 0 <= i < items.len() implies reach(
            answer,
            &#[trigger] items[i],
            limit,
        ) is None by {
            let leaf = leaves[i];
            assert(items[i] == leaf.item);
            assert(node.bounding_box.holds(leaf.bounds));
            if reach(answer, &leaf.item, limit) is Some {
                assert(crossing(node.bounding_box, limit));
            }
        }
    } else {
        match (&node.left, &node.right) {
            (Some(l), Some(r)) => {
                let ll = child_leaves(*l);
                let rl = child_leaves(*r);
                assert(leaves == ll + rl);
                assert forall|i: int| 0 <= i < ll.len() implies (#[trigger] ll[i]).bounds.well_formed() by {
                    assert(leaves[i] == ll[i]);
                }
                assert forall|i: int| 0 <= i < rl.len() implies (#[trigger] rl[i]).bounds.well_formed() by {
                    assert(leaves[ll.len() + i] == rl[i]);
                }
                let left = found_below(l, crossing, answer, limit);
                let near = limit_of(limit, left);
                let right = found_below(r, crossing, answer, near);
                lemma_found_below_is_nearest(l, crossing, answer, limit);
                lemma_found_below_is_nearest(r, crossing, answer, near);
                lemma_nearest_of_two(
                    items_of(ll),
                    items_of(rl),
                    answer,
                    limit,
                    distance(left),
                    distance(right),
                );
                assert(items =~= items_of(ll) + items_of(rl));
            },
            (Some(l), None) => {
                let ll = child_leaves(*l);
                assert(leaves =~= ll);
                lemma_found_below_is_nearest(l, crossing, answer, limit);
            },
            _ => {},
        }
    }
}

/// What the scan finds from thing `i` on is the nearest of all things,
/// where what it found so far is the nearest of the things before.
proof fn lemma_scanned_from_is_nearest<'a, T: 'a, S, M: 'a>(
    items: &'a Vec<T>,
    answer: spec_fn(&'a T, Scalar) -> Option<Hit<'a, S, M>>,
    i: int,
    limit: Scalar,
    near: Scalar,
    so_far: Option<Hit<'a, S, M>>,
)
    requires
        0 <= i <= items@.len(),
        consistent(answer),
        near == limit_of(limit, so_far),
        nearest_among(items@.subrange(0, i), answer, limit, distance(so_far)),
    ensures
        nearest_among(
            items@,
            answer,
            limit,
            distance(scanned_from(items, answer, i, near, so_far)),
        ),
    decreases items@.len() - i,
{
    if i >= items@.len() {
        assert(items@.subrange(0, i) =~= items@);
    } else {
        let before = items@.subrange(0, i);
        let one = seq![items@[i]];
        let hit = answer(&items@[i], near);
        assert(reach(answer, &one[0], near) == distance(hit));
        assert(nearest_among(one, answer, near, distance(hit)));
        lemma_nearest_of_two(before, one, answer, limit, distance(so_far), distance(hit));
        assert(before + one =~= items@.subrange(0, i + 1));
        if hit is Some {
            lemma_scanned_from_is_nearest(items, answer, i + 1, limit, limit_of(near, hit), hit);
        } else {
            lemma_scanned_from_is_nearest(items, answer, i + 1, limit, near, so_far);
        }
    }
}

/// What the scan finds is the nearest of all things.
pub proof fn lemma_scanned_is_nearest<'a, T: 'a, S, M: 'a>(
    items: &'a Vec<T>,
    answer: spec_fn(&'a T, Scalar) -> Option<Hit<'a, S, M>>,
    limit: Scalar,
)
    requires
        consistent(answer),
    ensures
        nearest_among(items@, answer, limit, distance(scanned(items, answer, limit))),
{
    assert(items@.subrange(0, 0) =~= Seq::<T>::empty());
    lemma_scanned_from_is_nearest(items, answer, 0, limit, limit, None);
}

/// The search of a hierarchy finds a hit at the distance at which the scan
/// of the same things finds one, and none where the scan finds none. This
/// holds where the answers about things fit together, the answers about
/// boxes are on the safe side, the boxes of the hierarchy fit, and every
/// thing stands in a well-formed box.
pub proof fn lemma_search_agrees_with_scan<'a, T: 'a, S, M: 'a>(
    node: &'a BvhNode<T>,
    items: &'a Vec<T>,
    crossing: spec_fn(BoundingBox, Scalar) -> bool,
    answer: spec_fn(&'a T, Scalar) -> Option<Hit<'a, S, M>>,
    limit: Scalar,
)
    requires
        node_fits(*node),
        well_boxed(node_leaves(*node)),
        items_of(node_leaves(*node)).to_multiset() == items@.to_multiset(),
        consistent(answer),
        conservative(crossing, answer),
    ensures
        distance(found(node, crossing, answer, limit)) == distance(scanned(items, answer, limit)),
{
    lemma_found_is_nearest(node, crossing, answer, limit);
    lemma_scanned_is_nearest(items, answer, limit);
    lemma_nearest_by_content(
        items_of(node_leaves(*node)),
        items@,
        answer,
        limit,
        distance(found(node, crossing, answer, limit)),
    );
    lemma_nearest_is_one(
        items@,
        answer,
        limit,
        distance(found(node, crossing, answer, limit)),
        distance(scanned(items, answer, limit)),
    );
}

/// What the search of a hierarchy answers for each node, where the ray is
/// asked about boxes as `crossing` says and the things answer as `answer`
/// says.
pub open spec fn searched<'a, T: 'a, S, M: 'a>(
    crossing: spec_fn(BoundingBox, Scalar) -> bool,
    answer: spec_fn(&'a T, Scalar) -> Option<Hit<'a, S, M>>,
) -> spec_fn(&'a BvhNode<T>, Scalar) -> Option<Hit<'a, S, M>> {
    |node: &'a BvhNode<T>, limit: Scalar| found(node, crossing, answer, limit)
}

/// Whether every box that one of `items` may give for itself is well
/// formed.
pub open spec fn give_good_boxes<T: Intersect>(items: Seq<T>) -> bool {
    forall|i: int, bounds: BoundingBox|
        0 <= i < items.len() && #[trigger] call_ensures(
            T::bounding_box,
            (&items[i],),
            Some(bounds),
        ) ==> bounds.well_formed()
}

/// A world answers alike before and after its hierarchy is built: where
/// the things give well-formed boxes and their answers fit together, the
/// scan of the hierarchy as the only thing finds the distance that the scan
/// of the things finds. Over no things both find nothing.
pub proof fn lemma_built_world_agrees<'a, T: Intersect + 'a>(
    items: &'a Vec<T>,
    built: &'a Vec<BvhNode<T>>,
    boxes: Seq<Option<BoundingBox>>,
    crossing: spec_fn(BoundingBox, Scalar) -> bool,
    answer: spec_fn(&'a T, Scalar) -> Option<Hit<'a, T::Surface, T::Material>>,
    limit: Scalar,
)
    requires
        built@.len() == 1,
        gives_boxes(items@, boxes),
        built_over(items@, boxes, Ok::<BvhNode<T>, BvhError>(built@[0])),
        give_good_boxes(items@),
        consistent(answer),
        conservative(crossing, answer),
    ensures
        scanned(built, searched(crossing, answer), limit) == found(
            &built@[0],
            crossing,
            answer,
            limit,
        ),
        distance(scanned(built, searched(crossing, answer), limit)) == distance(
            scanned(items, answer, limit),
        ),
{
    broadcast use vstd::seq_lib::group_to_multiset_ensures;

    let node = &built@[0];
    reveal_with_fuel(scanned_from, 3);
    assert(scanned(built, searched(crossing, answer), limit) == found(
        node,
        crossing,
        answer,
        limit,
    ));
    if items@.len() == 0 {
        assert(node.left is None && node.right is None);
    } else {
        let pairs = paired(items@, boxes);
        assert(well_boxed(pairs)) by {
            assert forall|i: int| 0 <= i < pairs.len() implies (#[trigger] pairs[i]).bounds.well_formed() by {
                assert(boxes[i] is Some);
                assert(call_ensures(T::bounding_box, (&items@[i],), boxes[i]));
            }
        }
        lemma_well_boxed_by_content(pairs, node_leaves(*node));
        lemma_search_agrees_with_scan(node, items, crossing, answer, limit);
    }
}

} // verus!
