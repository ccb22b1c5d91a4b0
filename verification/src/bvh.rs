//! The bounding-volume hierarchy: a binary tree of boxes over the things
//! that a ray can hit.
//!
//! The tree is built by sorting on one axis and cutting at the median. What
//! a thing is, what a ray is and whether a ray crosses a box is the
//! caller's to say, through the traits of this module.

use crate::geom::{BoundingBox, V3};
use crate::nearest::{
    agrees, agrees_crossing, answers_within, asked, asked_crossing, crossings_within, found,
    found_below, later_of, lemma_may_find_widens, may_find, may_find_below, may_find_beside,
    searched,
};
use crate::scalar::Scalar;
use vstd::prelude::*;

verus! {

/// What a ray has hit: how far along the ray, what the surface is like
/// there, and what it is made of.
pub struct Hit<'a, S, M> {
    pub t: Scalar,
    pub surface: S,
    pub material: &'a M,
}

/// A ray, as far as boxes are concerned.
pub trait Probe {
    /// Whether the ray crosses `bounds` somewhere between `t_min` and
    /// `t_max`.
    fn crosses(&self, bounds: &BoundingBox, t_min: Scalar, t_max: Scalar) -> bool;
}

/// A thing that a ray can hit.
pub trait Intersect {
    type Ray: Probe;

    type Surface;

    type Material;

    /// Where `ray` hits the thing between `t_min` and `t_max`, if it does.
    fn intersect<'a>(&'a self, ray: &Self::Ray, t_min: Scalar, t_max: Scalar) -> Option<
        Hit<'a, Self::Surface, Self::Material>,
    >;

    /// The box around the thing, if it has one.
    fn bounding_box(&self) -> Option<BoundingBox>;
}

/// A thing with the box around it.
pub struct Bounded<T> {
    pub item: T,
    pub bounds: BoundingBox,
}

/// The things of a sequence, without their boxes.
pub open spec fn items_of<T>(bounded: Seq<Bounded<T>>) -> Seq<T> {
    Seq::new(bounded.len(), |i: int| bounded[i].item)
}

/// `fastrand::u8` on the range from 0 up to, and without, 3: one of the
/// three axes, whichever the generator gives.
#[verifier::external_body]
fn random_axis() -> (axis: u8)
    ensures
        axis < 3,
{
    fastrand::u8(0..3)
}

/// Where a thing stands on `axis`: the key of the minimum of its box.
pub open spec fn axis_key<T>(item: Bounded<T>, axis: u8) -> int {
    item.bounds.minimum.on(axis).key()
}

/// The things stand in ascending order on `axis`.
pub open spec fn ascending<T>(items: Seq<Bounded<T>>, axis: u8) -> bool {
    forall|i: int, j: int|
        0 <= i <= j < items.len() ==> axis_key(#[trigger] items[i], axis) <= axis_key(
            #[trigger] items[j],
            axis,
        )
}

/// The things stand in descending order on `axis`.
pub open spec fn descending<T>(items: Seq<Bounded<T>>, axis: u8) -> bool {
    forall|i: int, j: int|
        0 <= i <= j < items.len() ==> axis_key(#[trigger] items[i], axis) >= axis_key(
            #[trigger] items[j],
            axis,
        )
}

/// No thing of `low` stands after a thing of `high` on `axis`.
pub open spec fn divided<T>(low: Seq<Bounded<T>>, high: Seq<Bounded<T>>, axis: u8) -> bool {
    forall|i: int, j: int|
        0 <= i < low.len() && 0 <= j < high.len() ==> axis_key(#[trigger] low[i], axis)
            <= axis_key(#[trigger] high[j], axis)
}

/// Where `item` stands on `axis`.
fn item_key<T>(item: &Bounded<T>, axis: u8) -> (k: i64)
    ensures
        k == axis_key(*item, axis),
{
    item.bounds.minimum.axis(axis).sort_key()
}

/// The things of `v` in reverse order.
fn reversed<T>(v: Vec<T>) -> (out: Vec<T>)
    ensures
        out@ == v@.reverse(),
{
    let mut v = v;
    let ghost all = v@;
    let mut out: Vec<T> = Vec::new();
    while v.len() > 0
        invariant
            v@ == all.subrange(0, v@.len() as int),
            v@.len() <= all.len(),
            out@.len() == all.len() - v@.len(),
            forall|i: int| 0 <= i < out@.len() ==> out@[i] == all[all.len() - 1 - i],
        decreases v@.len(),
    {
        let x = v.pop();
        match x {
            Some(x) => {
                out.push(x);
            },
            None => {},
        }
    }
    out
}

/// Merges two ascending vectors into one.
fn merge<T>(a: Vec<Bounded<T>>, b: Vec<Bounded<T>>, axis: u8) -> (out: Vec<Bounded<T>>)
    requires
        ascending(a@, axis),
        ascending(b@, axis),
    ensures
        out@.to_multiset() == a@.to_multiset().add(b@.to_multiset()),
        ascending(out@, axis),
        out@.len() == a@.len() + b@.len(),
{
    broadcast use vstd::seq_lib::group_to_multiset_ensures;
    broadcast use vstd::multiset::group_multiset_axioms;

    let ghost a0 = a@;
    let ghost b0 = b@;
    let mut a = a;
    let mut b = b;
    let mut out: Vec<Bounded<T>> = Vec::new();
    assert(out@.to_multiset().add(a@.to_multiset()).add(b@.to_multiset()) =~= a0.to_multiset().add(
        b0.to_multiset(),
    ));
    while a.len() > 0 || b.len() > 0
        invariant
            ascending(a0, axis),
            ascending(b0, axis),
            a@.len() <= a0.len(),
            b@.len() <= b0.len(),
            a@ == a0.subrange(0, a@.len() as int),
            b@ == b0.subrange(0, b@.len() as int),
            out@.len() + a@.len() + b@.len() == a0.len() + b0.len(),
            descending(out@, axis),
            forall|i: int, k: int|
                0 <= i < out@.len() && 0 <= k < a@.len() ==> axis_key(#[trigger] out@[i], axis)
                    >= axis_key(#[trigger] a0[k], axis),
            forall|i: int, k: int|
                0 <= i < out@.len() && 0 <= k < b@.len() ==> axis_key(#[trigger] out@[i], axis)
                    >= axis_key(#[trigger] b0[k], axis),
            out@.to_multiset().add(a@.to_multiset()).add(b@.to_multiset()) == a0.to_multiset().add(
                b0.to_multiset(),
            ),
        decreases a@.len() + b@.len(),
    {
        let ghost out_before = out@;
        let ghost a_before = a@;
        let ghost b_before = b@;
        let from_b = if a.len() == 0 {
            true
        } else if b.len() == 0 {
            false
        } else {
            let ka = item_key(&a[a.len() - 1], axis);
            let kb = item_key(&b[b.len() - 1], axis);
            kb >= ka
        };
        if from_b {
            let x = b.pop();
            match x {
                Some(x) => {
                    assert(b_before =~= b@.push(x));
                    out.push(x);
                    proof {
                        vstd::seq_lib::to_multiset_build(out_before, x);
                        vstd::seq_lib::to_multiset_build(b@, x);
                    }
                    assert(out@.to_multiset().add(a@.to_multiset()).add(b@.to_multiset())
                        =~= out_before.to_multiset().add(a_before.to_multiset()).add(
                        b_before.to_multiset(),
                    ));
                },
                None => {},
            }
        } else {
            let x = a.pop();
            match x {
                Some(x) => {
                    assert(a_before =~= a@.push(x));
                    out.push(x);
                    proof {
                        vstd::seq_lib::to_multiset_build(out_before, x);
                        vstd::seq_lib::to_multiset_build(a@, x);
                    }
                    assert(out@.to_multiset().add(a@.to_multiset()).add(b@.to_multiset())
                        =~= out_before.to_multiset().add(a_before.to_multiset()).add(
                        b_before.to_multiset(),
                    ));
                },
                None => {},
            }
        }
    }
    let ghost down = out@;
    let out = reversed(out);
    proof {
        down.lemma_reverse_to_multiset();
    }
    out
}

/// Sorts things in ascending order on `axis`.
pub fn sort_on_axis<T>(items: Vec<Bounded<T>>, axis: u8) -> (out: Vec<Bounded<T>>)
    ensures
        out@.to_multiset() == items@.to_multiset(),
        out@.len() == items@.len(),
        ascending(out@, axis),
    decreases items@.len(),
{
    if items.len() <= 1 {
        return items;
    }
    let ghost all = items@;
    let mut front = items;
    let mid = front.len() / 2;
    let back = front.split_off(mid);
    proof {
        assert(all =~= front@ + back@);
        vstd::seq_lib::lemma_multiset_commutative(front@, back@);
    }
    let a = sort_on_axis(front, axis);
    let b = sort_on_axis(back, axis);
    merge(a, b, axis)
}

/// What hangs below a node: a thing, or another node.
pub enum BvhChild<T> {
    Leaf(Bounded<T>),
    Node(Box<BvhNode<T>>),
}

/// A node of the hierarchy: up to two children, and the box around them.
pub struct BvhNode<T> {
    pub left: Option<BvhChild<T>>,
    pub right: Option<BvhChild<T>>,
    pub bounding_box: BoundingBox,
}

/// The things below a child, from left to right.
pub open spec fn child_leaves<T>(child: BvhChild<T>) -> Seq<Bounded<T>>
    decreases child,
{
    match child {
        BvhChild::Leaf(item) => seq![item],
        BvhChild::Node(node) => node_leaves(*node),
    }
}

/// The things below a child that may be missing.
pub open spec fn side_leaves<T>(side: Option<BvhChild<T>>) -> Seq<Bounded<T>>
    decreases side,
{
    match side {
        Some(child) => child_leaves(child),
        None => Seq::empty(),
    }
}

/// The things below a node, from left to right.
pub open spec fn node_leaves<T>(node: BvhNode<T>) -> Seq<Bounded<T>>
    decreases node,
{
    side_leaves(node.left) + side_leaves(node.right)
}

/// The box of a child: that of the thing, or that of the node.
pub open spec fn child_bounds<T>(child: BvhChild<T>) -> BoundingBox {
    match child {
        BvhChild::Leaf(item) => item.bounds,
        BvhChild::Node(node) => node.bounding_box,
    }
}

/// Whether the boxes below a child fit: see `node_fits`.
pub open spec fn child_fits<T>(child: BvhChild<T>) -> bool
    decreases child,
{
    match child {
        BvhChild::Leaf(_) => true,
        BvhChild::Node(node) => node_fits(*node),
    }
}

/// Whether the boxes of a node fit: the node has a left child, and the box
/// of every node is the join of the boxes of its children, or the box of
/// its only child.
pub open spec fn node_fits<T>(node: BvhNode<T>) -> bool
    decreases node,
{
    match (node.left, node.right) {
        (Some(l), Some(r)) => child_fits(l) && child_fits(r) && node.bounding_box == child_bounds(
            l,
        ).join_of(child_bounds(r)),
        (Some(l), None) => child_fits(l) && child_bounds(l) == node.bounding_box,
        _ => false,
    }
}

/// Whether the boxes of a whole tree fit: those of a tree without children
/// where its box is the box that holds nothing, and those of any other
/// tree as `node_fits` says.
pub open spec fn tree_fits<T>(node: BvhNode<T>) -> bool {
    if node.left is None && node.right is None {
        node.bounding_box == BoundingBox::nothing()
    } else {
        node_fits(node)
    }
}

/// Whether a child is cut as `node_cut` says.
pub open spec fn child_cut<T>(child: BvhChild<T>) -> bool
    decreases child,
{
    match child {
        BvhChild::Leaf(_) => true,
        BvhChild::Node(node) => node_cut(*node),
    }
}

/// Whether every node with two children is cut on one of the three axes: no
/// thing below its left child stands after a thing below its right child
/// on that axis.
pub open spec fn node_cut<T>(node: BvhNode<T>) -> bool
    decreases node,
{
    match (node.left, node.right) {
        (Some(l), Some(r)) => child_cut(l) && child_cut(r) && exists|axis: u8|
            axis < 3 && #[trigger] divided(child_leaves(l), child_leaves(r), axis),
        (Some(l), None) => child_cut(l),
        (None, Some(r)) => child_cut(r),
        (None, None) => true,
    }
}

/// Whether a child has the shape that `node_halved` asks of a node over
/// `count` things.
pub open spec fn child_halved<T>(child: BvhChild<T>, count: nat) -> bool
    decreases child,
{
    match child {
        BvhChild::Leaf(_) => count == 1,
        BvhChild::Node(node) => node_halved(*node, count),
    }
}

/// Whether a node over `count` things is cut at the median all the way
/// down: over no things it has no children; one thing hangs to the left
/// alone; two things hang one to each side; and of more, the first half,
/// rounded down, hangs below a node to the left and the rest below a node
/// to the right.
pub open spec fn node_halved<T>(node: BvhNode<T>, count: nat) -> bool
    decreases node,
{
    if count == 0 {
        node.left is None && node.right is None
    } else if count == 1 {
        node.left matches Some(BvhChild::Leaf(_)) && node.right is None
    } else if count == 2 {
        node.left matches Some(BvhChild::Leaf(_)) && node.right matches Some(BvhChild::Leaf(_))
    } else {
        match (node.left, node.right) {
            (Some(BvhChild::Node(l)), Some(BvhChild::Node(r))) => count >= 3 && node_halved(
                *l,
                count / 2,
            ) && node_halved(*r, (count - count / 2) as nat),
            _ => false,
        }
    }
}

/// A permutation of things in order keeps the order of its parts.
proof fn lemma_divided_by_content<T>(
    low: Seq<Bounded<T>>,
    high: Seq<Bounded<T>>,
    left: Seq<Bounded<T>>,
    right: Seq<Bounded<T>>,
    axis: u8,
)
    requires
        divided(low, high, axis),
        left.to_multiset() == low.to_multiset(),
        right.to_multiset() == high.to_multiset(),
    ensures
        divided(left, right, axis),
{
    broadcast use vstd::seq_lib::group_to_multiset_ensures;

    assert forall|i: int, j: int| 0 <= i < left.len() && 0 <= j < right.len() implies axis_key(
        #[trigger] left[i],
        axis,
    ) <= axis_key(#[trigger] right[j], axis) by {
        assert(left.to_multiset().count(left[i]) > 0);
        assert(right.to_multiset().count(right[j]) > 0);
        let a = choose|a: int| 0 <= a < low.len() && low[a] == left[i];
        let b = choose|b: int| 0 <= b < high.len() && high[b] == right[j];
    }
}

/// Why no hierarchy was built.
#[derive(Debug, Copy, Clone, PartialEq, Eq, Structural)]
pub enum BvhError {
    /// A thing has no box.
    MissingBoundingBox,
}

impl<T> BvhNode<T> {
    /// Builds the hierarchy over things with their boxes: sorts them on an
    /// axis taken at random, hangs the first half below the left child and
    /// the rest below the right child, and goes on so in both halves, each
    /// with an axis of its own.
    ///
    /// Over no things the tree has no children, and its box holds nothing.
    ///
    /// Whatever axes are taken, the tree holds exactly the things given, is
    /// cut at the median all the way down, has fitting boxes, and is cut
    /// on some axis at every node.
    pub fn build(items: Vec<Bounded<T>>) -> (node: BvhNode<T>)
        ensures
            node_leaves(node).to_multiset() == items@.to_multiset(),
            node_halved(node, items@.len()),
            items@.len() >= 1 ==> node_fits(node),
            tree_fits(node),
            node_cut(node),
        decreases items@.len(),
    {
        broadcast use vstd::seq_lib::group_to_multiset_ensures;
        broadcast use vstd::multiset::group_multiset_axioms;

        let axis = random_axis();
        let ghost all = items@;
        let mut items = items;
        if items.len() == 0 {
            let bounding_box = BoundingBox::new(
                V3::fill(Scalar::infinity()),
                V3::fill(Scalar::neg_infinity()),
            );
            assert(all =~= Seq::empty());
            BvhNode { left: None, right: None, bounding_box }
        } else if items.len() == 1 {
            let a = items.pop().unwrap();
            assert(all =~= seq![a]);
            let bounding_box = a.bounds;
            let node = BvhNode { left: Some(BvhChild::Leaf(a)), right: None, bounding_box };
            node
        } else if items.len() == 2 {
            let a = items.pop().unwrap();
            let b = items.pop().unwrap();
            assert(all =~= seq![b, a]);
            let ka = item_key(&a, axis);
            let kb = item_key(&b, axis);
            let (first, second) = if ka < kb {
                (a, b)
            } else {
                (b, a)
            };
            let bounding_box = first.bounds.join(second.bounds);
            let node = BvhNode {
                left: Some(BvhChild::Leaf(first)),
                right: Some(BvhChild::Leaf(second)),
                bounding_box,
            };
            proof {
                assert(node_leaves(node) =~= seq![first, second]);
                assert(seq![b, a] =~= seq![b].push(a));
                assert(seq![a, b] =~= seq![a].push(b));
                assert(divided(
                    child_leaves(BvhChild::Leaf(first)),
                    child_leaves(BvhChild::Leaf(second)),
                    axis,
                ));
            }
            node
        } else {
            let mut sorted = sort_on_axis(items, axis);
            let ghost whole = sorted@;
            let mid = sorted.len() / 2;
            let back = sorted.split_off(mid);
            proof {
                assert(whole =~= sorted@ + back@);
                vstd::seq_lib::lemma_multiset_commutative(sorted@, back@);
            }
            let ghost low = sorted@;
            let ghost high = back@;
            let left = BvhNode::build(sorted);
            let right = BvhNode::build(back);
            let bounding_box = left.bounding_box.join(right.bounding_box);
            proof {
                lemma_divided_by_content(low, high, node_leaves(left), node_leaves(right), axis);
                vstd::seq_lib::lemma_multiset_commutative(node_leaves(left), node_leaves(right));
            }
            let node = BvhNode {
                left: Some(BvhChild::Node(Box::new(left))),
                right: Some(BvhChild::Node(Box::new(right))),
                bounding_box,
            };
            proof {
                assert(divided(
                    child_leaves(BvhChild::Node(Box::new(left))),
                    child_leaves(BvhChild::Node(Box::new(right))),
                    axis,
                ));
            }
            node
        }
    }
}

/// Whether `boxes` are boxes that the things give for themselves, thing by
/// thing.
pub open spec fn gives_boxes<T: Intersect>(items: Seq<T>, boxes: Seq<Option<BoundingBox>>) -> bool {
    &&& boxes.len() == items.len()
    &&& forall|i: int|
        0 <= i < items.len() ==> call_ensures(T::bounding_box, (&#[trigger] items[i],), boxes[i])
}

/// Whether no box is missing among `boxes`.
pub open spec fn all_there(boxes: Seq<Option<BoundingBox>>) -> bool {
    forall|i: int| 0 <= i < boxes.len() ==> (#[trigger] boxes[i]) is Some
}

/// The things with their boxes, thing by thing.
pub open spec fn paired<T>(items: Seq<T>, boxes: Seq<Option<BoundingBox>>) -> Seq<Bounded<T>> {
    Seq::new(items.len(), |i: int| Bounded { item: items[i], bounds: boxes[i]->Some_0 })
}

/// Whether `r` is what comes of building the hierarchy over `items` with
/// `boxes`: an error where a box is missing, and else a tree that holds
/// exactly the things with their boxes, is cut at the median all the way
/// down, has fitting boxes, and is cut on some axis at every node.
pub open spec fn built_over<T>(
    items: Seq<T>,
    boxes: Seq<Option<BoundingBox>>,
    r: Result<BvhNode<T>, BvhError>,
) -> bool {
    match r {
        Ok(node) => {
            &&& all_there(boxes)
            &&& node_leaves(node).to_multiset() == paired(items, boxes).to_multiset()
            &&& items_of(node_leaves(node)).to_multiset() == items.to_multiset()
            &&& node_halved(node, items.len())
            &&& tree_fits(node)
            &&& node_cut(node)
        },
        Err(_) => !all_there(boxes),
    }
}

/// Whether the box of every thing below `node` is one that the thing gives
/// for itself.
pub open spec fn leaves_give_boxes<T: Intersect>(node: BvhNode<T>) -> bool {
    forall|i: int|
        0 <= i < node_leaves(node).len() ==> call_ensures(
            T::bounding_box,
            (&(#[trigger] node_leaves(node)[i]).item,),
            Some(node_leaves(node)[i].bounds),
        )
}

/// Whether one of `items` gives no box for itself.
pub open spec fn one_gives_none<T: Intersect>(items: Seq<T>) -> bool {
    exists|i: int|
        0 <= i < items.len() && call_ensures(
            T::bounding_box,
            (&#[trigger] items[i],),
            None::<BoundingBox>,
        )
}

impl<T> BvhNode<T> {
    /// Builds the hierarchy over `items`, the thing at each place with the
    /// box at that place. Nothing is built where a box is missing; over no
    /// things the tree has no children.
    pub fn over(items: Vec<T>, boxes: Vec<Option<BoundingBox>>) -> (r: Result<
        BvhNode<T>,
        BvhError,
    >)
        requires
            boxes@.len() == items@.len(),
        ensures
            built_over(items@, boxes@, r),
    {
        let ghost all = items@;
        let ghost given = boxes@;
        let mut rest = items;
        let mut ahead = boxes;
        let mut stack: Vec<Bounded<T>> = Vec::new();
        while rest.len() > 0
            invariant
                all == items@,
                given == boxes@,
                given.len() == all.len(),
                rest@.len() <= all.len(),
                rest@ == all.subrange(0, rest@.len() as int),
                ahead@ == given.subrange(0, rest@.len() as int),
                stack@.len() == all.len() - rest@.len(),
                forall|i: int| rest@.len() <= i < all.len() ==> (#[trigger] given[i]) is Some,
                forall|i: int|
                    0 <= i < stack@.len() ==> (#[trigger] stack@[i]) == paired(
                        all,
                        given,
                    )[all.len() - 1 - i],
            decreases rest@.len(),
        {
            let ghost at = rest@.len() - 1;
            let item = rest.pop().unwrap();
            let bounds = ahead.pop().unwrap();
            assert(item == all[at]);
            assert(bounds == given[at]);
            match bounds {
                Some(bounds) => {
                    stack.push(Bounded { item, bounds });
                },
                None => {
                    assert(!all_there(given));
                    return Err(BvhError::MissingBoundingBox);
                },
            }
        }
        assert(all_there(given));
        // the things were taken from the back: put them in their order again
        let stack = reversed(stack);
        let ghost boxed = stack@;
        let node = BvhNode::build(stack);
        proof {
            assert(boxed =~= paired(all, given));
            assert(items_of(boxed) =~= all);
            lemma_items_of_content(node_leaves(node), boxed);
        }
        Ok(node)
    }
}

impl<T: Intersect> BvhNode<T> {
    /// Builds the hierarchy over `items`, each with the box that it gives
    /// for itself. Nothing is built where a thing gives no box; over no
    /// things the tree has no children, and no ray hits it.
    ///
    /// The boxes are the things' to give: the result is what `over` makes
    /// of the things and the boxes that they gave. So the box of every
    /// thing in the tree is one that the thing gave, the error comes only
    /// where a thing gave no box, and things that always give a box are
    /// built over.
    pub fn new(items: Vec<T>) -> (r: Result<BvhNode<T>, BvhError>)
        ensures
            exists|boxes: Seq<Option<BoundingBox>>| #[trigger]
                gives_boxes(items@, boxes) && built_over(items@, boxes, r),
            r matches Ok(node) ==> {
                &&& items_of(node_leaves(node)).to_multiset() == items@.to_multiset()
                &&& node_halved(node, items@.len())
                &&& tree_fits(node)
                &&& node_cut(node)
                &&& leaves_give_boxes(node)
            },
            r matches Err(BvhError::MissingBoundingBox) ==> one_gives_none(items@),
            items@.len() == 0 ==> r is Ok,
    {
        let n = items.len();
        let mut boxes: Vec<Option<BoundingBox>> = Vec::new();
        let mut i: usize = 0;
        while i < n
            invariant
                i <= n == items@.len(),
                gives_boxes(items@.subrange(0, i as int), boxes@),
            decreases n - i,
        {
            let bounds = items[i].bounding_box();
            proof {
                let before = items@.subrange(0, i as int);
                let after = items@.subrange(0, i + 1);
                assert forall|k: int| 0 <= k < after.len() implies call_ensures(
                    T::bounding_box,
                    (&#[trigger] after[k],),
                    boxes@.push(bounds)[k],
                ) by {
                    if k < i {
                        assert(after[k] == before[k]);
                    }
                }
            }
            boxes.push(bounds);
            i += 1;
        }
        let ghost given = boxes@;
        assert(items@.subrange(0, n as int) =~= items@);
        let r = BvhNode::over(items, boxes);
        proof {
            lemma_built_from_given(items@, given, r);
        }
        r
    }
}

/// What follows for a tree built over things with the boxes that they gave:
/// the box of every thing in the tree is one that the thing gave, and
/// where nothing was built a thing gave no box.
pub proof fn lemma_built_from_given<T: Intersect>(
    items: Seq<T>,
    boxes: Seq<Option<BoundingBox>>,
    r: Result<BvhNode<T>, BvhError>,
)
    requires
        gives_boxes(items, boxes),
        built_over(items, boxes, r),
    ensures
        r matches Ok(node) ==> leaves_give_boxes(node),
        r is Err ==> one_gives_none(items),
{
    broadcast use vstd::seq_lib::group_to_multiset_ensures;
    broadcast use vstd::multiset::group_multiset_axioms;

    match r {
        Ok(node) => {
            let leaves = node_leaves(node);
            let pairs = paired(items, boxes);
            assert forall|i: int| 0 <= i < leaves.len() implies call_ensures(
                T::bounding_box,
                (&(#[trigger] leaves[i]).item,),
                Some(leaves[i].bounds),
            ) by {
                assert(leaves.to_multiset().count(leaves[i]) > 0);
                assert(pairs.contains(leaves[i]));
                let j = choose|j: int| 0 <= j < pairs.len() && pairs[j] == leaves[i];
                assert(boxes[j] is Some);
                assert(call_ensures(T::bounding_box, (&items[j],), boxes[j]));
            }
        },
        Err(_) => {
            let j = choose|j: int| 0 <= j < boxes.len() && !(#[trigger] boxes[j] is Some);
            assert(call_ensures(T::bounding_box, (&items[j],), boxes[j]));
            assert(boxes[j] == None::<BoundingBox>);
        },
    }
}

/// Two sequences of the same boxed things hold the same things.
pub proof fn lemma_items_of_content<T>(a: Seq<Bounded<T>>, b: Seq<Bounded<T>>)
    requires
        a.to_multiset() == b.to_multiset(),
    ensures
        items_of(a).to_multiset() == items_of(b).to_multiset(),
    decreases a.len(),
{
    broadcast use vstd::seq_lib::group_to_multiset_ensures;
    broadcast use vstd::multiset::group_multiset_axioms;

    if a.len() == 0 {
        assert(b.to_multiset().len() == 0);
    } else {
        let x = a.last();
        assert(a.to_multiset().count(x) > 0);
        let j = choose|j: int| 0 <= j < b.len() && b[j] == x;
        let a1 = a.drop_last();
        let b1 = b.remove(j);
        assert(a =~= a1.push(x));
        vstd::seq_lib::to_multiset_build(a1, x);
        vstd::seq_lib::to_multiset_remove(b, j);
        assert(a1.to_multiset() =~= b1.to_multiset());
        lemma_items_of_content(a1, b1);
        assert(items_of(a) =~= items_of(a1).push(x.item));
        vstd::seq_lib::to_multiset_build(items_of(a1), x.item);
        assert(items_of(b1) =~= items_of(b).remove(j));
        vstd::seq_lib::to_multiset_remove(items_of(b), j);
    }
}

/// The far limit for what is tried next: the distance of `hit`, or
/// `t_max` where nothing was hit.
pub open spec fn limit_of<'a, S, M>(t_max: Scalar, hit: Option<Hit<'a, S, M>>) -> Scalar {
    match hit {
        Some(h) => h.t,
        None => t_max,
    }
}

/// The far limit for what is tried next.
pub fn limit_after<'a, S, M>(t_max: Scalar, hit: &Option<Hit<'a, S, M>>) -> (r: Scalar)
    ensures
        r == limit_of(t_max, *hit),
{
    match hit {
        Some(h) => h.t,
        None => t_max,
    }
}

/// The later of two hits that were tried one after the other, the second
/// within the limit of the first: the second where there is one, and else
/// the first.
pub fn later_hit<'a, S, M>(first: Option<Hit<'a, S, M>>, second: Option<Hit<'a, S, M>>) -> (r:
    Option<Hit<'a, S, M>>)
    ensures
        r == match second {
            Some(h) => Some(h),
            None => first,
        },
{
    match second {
        Some(h) => Some(h),
        None => first,
    }
}

impl<T> BvhChild<T> {
    /// The box of what hangs here.
    pub fn bounding_box(&self) -> (r: BoundingBox)
        ensures
            r == child_bounds(*self),
    {
        match self {
            BvhChild::Leaf(leaf) => leaf.bounds,
            BvhChild::Node(node) => node.bounding_box,
        }
    }
}

/// Whether the things keep to `answer` where they are asked about `ray`
/// from `t_min` up to a far limit: their `intersect` gives what `answer`
/// says and nothing else.
pub open spec fn things_keep_to<'a, T: Intersect + 'a>(
    ray: &T::Ray,
    t_min: Scalar,
    answer: spec_fn(&'a T, Scalar) -> Option<Hit<'a, T::Surface, T::Material>>,
) -> bool {
    forall|item: &'a T, limit: Scalar, r: Option<Hit<'a, T::Surface, T::Material>>| #[trigger]
        call_ensures(T::intersect, (item, ray, t_min, limit), r) ==> r == answer(item, limit)
}

/// Whether `ray` keeps to `crossing` where it is asked about a box from
/// `t_min` up to a far limit: its `crosses` gives what `crossing` says and
/// nothing else.
pub open spec fn ray_keeps_to<R: Probe>(
    ray: &R,
    t_min: Scalar,
    crossing: spec_fn(BoundingBox, Scalar) -> bool,
) -> bool {
    forall|bounds: &BoundingBox, limit: Scalar, r: bool| #[trigger]
        call_ensures(R::crosses, (ray, bounds, t_min, limit), r) ==> r == crossing(*bounds, limit)
}

/// What the things may answer to `ray` from `t_min` on: whether `r` is an
/// answer that a thing may give when it is asked up to a far limit.
pub open spec fn thing_answers<'a, T: Intersect + 'a>(ray: &T::Ray, t_min: Scalar) -> spec_fn(
    &'a T,
    Scalar,
    Option<Hit<'a, T::Surface, T::Material>>,
) -> bool {
    |item: &'a T, limit: Scalar, r: Option<Hit<'a, T::Surface, T::Material>>|
        call_ensures(T::intersect, (item, ray, t_min, limit), r)
}

/// What `ray` may answer about boxes from `t_min` on: whether `r` is an
/// answer that it may give when it is asked about a box up to a far limit.
pub open spec fn ray_answers<R: Probe>(ray: &R, t_min: Scalar) -> spec_fn(
    BoundingBox,
    Scalar,
    bool,
) -> bool {
    |bounds: BoundingBox, limit: Scalar, r: bool|
        call_ensures(R::crosses, (ray, &bounds, t_min, limit), r)
}

impl<T: Intersect> BvhNode<T> {
    /// Where `ray` hits the nearest thing below this node between `t_min`
    /// and `t_max`: the search of the node, where the ray is asked about
    /// the boxes and the things are asked where they are hit.
    ///
    /// What is hit is the things' to say, and they may say one thing now
    /// and another then: the hit is one that `may_find` allows, made of
    /// answers that the ray and the things gave. A node without children is
    /// never hit, and whatever answers the ray and the things keep to, the
    /// hit is what `found` says of those answers.
    pub fn walk<'a>(&'a self, ray: &T::Ray, t_min: Scalar, t_max: Scalar) -> (r: Option<
        Hit<'a, T::Surface, T::Material>,
    >)
        ensures
            may_find(self, ray_answers::<T::Ray>(ray, t_min), thing_answers::<T>(ray, t_min), t_max, r),
            self.left is None && self.right is None ==> r is None,
            forall|
                crossing: spec_fn(BoundingBox, Scalar) -> bool,
                answer: spec_fn(&'a T, Scalar) -> Option<Hit<'a, T::Surface, T::Material>>,
            |
                #![trigger ray_keeps_to::<T::Ray>(ray, t_min, crossing), things_keep_to::<T>(ray, t_min, answer)]
                ray_keeps_to::<T::Ray>(ray, t_min, crossing) && things_keep_to::<T>(
                    ray,
                    t_min,
                    answer,
                ) ==> r == found(self, crossing, answer, t_max),
        decreases self,
    {
        let crosses = |bounds: &BoundingBox, limit: Scalar| -> (r: bool)
            ensures
                call_ensures(<T::Ray as Probe>::crosses, (ray, bounds, t_min, limit), r),
            { ray.crosses(bounds, t_min, limit) };
        let probe = |item: &'a T, limit: Scalar| -> (r: Option<Hit<'a, T::Surface, T::Material>>)
            ensures
                call_ensures(T::intersect, (item, ray, t_min, limit), r),
            { item.intersect(ray, t_min, limit) };
        let r = self.search(&crosses, &probe, t_max);
        proof {
            assert(crossings_within(
                asked_crossing(crosses),
                ray_answers::<T::Ray>(ray, t_min),
            ));
            assert(answers_within(asked(probe), thing_answers::<T>(ray, t_min)));
            lemma_may_find_widens(
                self,
                asked_crossing(crosses),
                asked(probe),
                ray_answers::<T::Ray>(ray, t_min),
                thing_answers::<T>(ray, t_min),
                t_max,
                r,
            );
            assert forall|
                crossing: spec_fn(BoundingBox, Scalar) -> bool,
                answer: spec_fn(&'a T, Scalar) -> Option<Hit<'a, T::Surface, T::Material>>,
            |
                #![trigger ray_keeps_to::<T::Ray>(ray, t_min, crossing), things_keep_to::<T>(ray, t_min, answer)]
                ray_keeps_to::<T::Ray>(ray, t_min, crossing) && things_keep_to::<T>(
                    ray,
                    t_min,
                    answer,
                ) implies r == found(self, crossing, answer, t_max) by {
                assert(agrees_crossing(crosses, crossing));
                assert(agrees(probe, answer));
            }
        }
        r
    }
}

impl<T: Intersect> Intersect for BvhNode<T> {
    type Ray = T::Ray;

    type Surface = T::Surface;

    type Material = T::Material;

    /// Where `ray` hits the nearest thing below this node: the walk of the
    /// node.
    fn intersect<'a>(&'a self, ray: &Self::Ray, t_min: Scalar, t_max: Scalar) -> (r: Option<
        Hit<'a, Self::Surface, Self::Material>,
    >)
        ensures
            may_find(self, ray_answers::<T::Ray>(ray, t_min), thing_answers::<T>(ray, t_min), t_max, r),
            self.left is None && self.right is None ==> r is None,
            forall|
                crossing: spec_fn(BoundingBox, Scalar) -> bool,
                answer: spec_fn(&'a T, Scalar) -> Option<Hit<'a, T::Surface, T::Material>>,
            |
                #![trigger ray_keeps_to::<T::Ray>(ray, t_min, crossing), things_keep_to::<T>(ray, t_min, answer)]
                ray_keeps_to::<T::Ray>(ray, t_min, crossing) && things_keep_to::<T>(
                    ray,
                    t_min,
                    answer,
                ) ==> r == found(self, crossing, answer, t_max),
    {
        self.walk(ray, t_min, t_max)
    }

    fn bounding_box(&self) -> (r: Option<BoundingBox>)
        ensures
            r == Some(self.bounding_box),
    {
        Some(self.bounding_box)
    }
}

/// A hierarchy keeps to what its search finds: where the ray keeps to
/// `crossing` and the things keep to `answer`, every node answers what
/// `found` says of them.
pub proof fn lemma_hierarchy_keeps_to<'a, T: Intersect + 'a>(
    ray: &T::Ray,
    t_min: Scalar,
    crossing: spec_fn(BoundingBox, Scalar) -> bool,
    answer: spec_fn(&'a T, Scalar) -> Option<Hit<'a, T::Surface, T::Material>>,
)
    requires
        ray_keeps_to::<T::Ray>(ray, t_min, crossing),
        things_keep_to::<T>(ray, t_min, answer),
    ensures
        things_keep_to::<BvhNode<T>>(ray, t_min, searched(crossing, answer)),
{
}

impl<T> BvhChild<T> {
    /// Searches below a child.
    fn search_below<'a, S, M, FB, FH>(
        &'a self,
        crosses: &FB,
        probe: &FH,
        limit: Scalar,
    ) -> (r: Option<Hit<'a, S, M>>) where
        FB: Fn(&BoundingBox, Scalar) -> bool,
        FH: Fn(&'a T, Scalar) -> Option<Hit<'a, S, M>>,

        requires
            forall|b: &BoundingBox, l: Scalar| call_requires(*crosses, (b, l)),
            forall|x: &'a T, l: Scalar| call_requires(*probe, (x, l)),
        ensures
            may_find_below(self, asked_crossing(*crosses), asked(*probe), limit, r),
            forall|
                crossing: spec_fn(BoundingBox, Scalar) -> bool,
                answer: spec_fn(&'a T, Scalar) -> Option<Hit<'a, S, M>>,
            |
                #![trigger agrees_crossing(*crosses, crossing), agrees(*probe, answer)]
                agrees_crossing(*crosses, crossing) && agrees(*probe, answer) ==> r == found_below(
                    self,
                    crossing,
                    answer,
                    limit,
                ),
        decreases self,
    {
        match self {
            BvhChild::Leaf(leaf) => probe(&leaf.item, limit),
            BvhChild::Node(node) => node.search(crosses, probe, limit),
        }
    }
}

impl<T> BvhNode<T> {
    /// Searches the things below this node for the nearest hit up to
    /// `limit`. Nothing is tried unless `crosses` says that the ray crosses
    /// the box of the node; then the left child is searched, and the right
    /// child up to where the left one was hit. Things are asked through
    /// `probe`.
    ///
    /// What is found is one of the hits that `may_find` allows, made of
    /// answers that the two functions gave. A node without children is
    /// never hit. Whatever answers the two functions keep to, what is found
    /// is what `found` says of them.
    pub fn search<'a, S, M, FB, FH>(&'a self, crosses: &FB, probe: &FH, limit: Scalar) -> (r:
        Option<Hit<'a, S, M>>) where
        FB: Fn(&BoundingBox, Scalar) -> bool,
        FH: Fn(&'a T, Scalar) -> Option<Hit<'a, S, M>>,

        requires
            forall|b: &BoundingBox, l: Scalar| call_requires(*crosses, (b, l)),
            forall|x: &'a T, l: Scalar| call_requires(*probe, (x, l)),
        ensures
            may_find(self, asked_crossing(*crosses), asked(*probe), limit, r),
            self.left is None && self.right is None ==> r is None,
            forall|
                crossing: spec_fn(BoundingBox, Scalar) -> bool,
                answer: spec_fn(&'a T, Scalar) -> Option<Hit<'a, S, M>>,
            |
                #![trigger agrees_crossing(*crosses, crossing), agrees(*probe, answer)]
                agrees_crossing(*crosses, crossing) && agrees(*probe, answer) ==> r == found(
                    self,
                    crossing,
                    answer,
                    limit,
                ),
        decreases self,
    {
        if crosses(&self.bounding_box, limit) {
            assert(asked_crossing(*crosses)(self.bounding_box, limit, true));
            let left_hit = match &self.left {
                Some(left) => left.search_below(crosses, probe, limit),
                None => None,
            };
            let nearer = limit_after(limit, &left_hit);
            let right_hit = match &self.right {
                Some(right) => right.search_below(crosses, probe, nearer),
                None => None,
            };
            proof {
                assert(may_find_beside(
                    &self.left,
                    asked_crossing(*crosses),
                    asked(*probe),
                    limit,
                    left_hit,
                ));
                assert(may_find_beside(
                    &self.right,
                    asked_crossing(*crosses),
                    asked(*probe),
                    limit_of(limit, left_hit),
                    right_hit,
                ));
                let both = later_of(left_hit, right_hit);
            }
            later_hit(left_hit, right_hit)
        } else {
            assert(asked_crossing(*crosses)(self.bounding_box, limit, false));
            None
        }
    }
}

} // verus!
