//! The world: the things that a ray can hit, and what lies behind them.

use crate::bvh::{
    built_over, gives_boxes, items_of, leaves_give_boxes, limit_of, node_cut, node_halved,
    node_leaves, one_gives_none, thing_answers, things_keep_to, tree_fits, BvhError, BvhNode,
    Hit, Intersect,
};
use crate::nearest::{
    agrees, answers_within, asked, lemma_may_scan_widens, may_scan, may_scan_from, scan, scanned,
};
use crate::geom::BoundingBox;
use crate::scalar::Scalar;
use vstd::prelude::*;

verus! {

/// The bits of a thousandth, as near as 32 bits come to it: how far from
/// its origin a ray of a path starts to count, so that a ray that leaves a
/// surface does not hit that surface again.
pub const PATH_NEAR_BITS: u32 = 0x3a83_126f;

/// What a ray sees where it hits nothing.
pub trait Background {
    type Ray;

    type Colour;

    fn background(&self, ray: &Self::Ray) -> Self::Colour;
}

/// The things of a scene, in front of a background.
pub struct World<B, O> {
    pub background: B,
    pub objects: Vec<O>,
}

/// The join of `so_far` and the boxes from the one at `i` on; nothing where
/// one of them is missing.
pub open spec fn joined_from(boxes: Seq<Option<BoundingBox>>, i: int, so_far: BoundingBox) -> Option<
    BoundingBox,
>
    decreases boxes.len() - i,
{
    if i < 0 || i >= boxes.len() {
        Some(so_far)
    } else {
        match boxes[i] {
            Some(b) => joined_from(boxes, i + 1, so_far.join_of(b)),
            None => None,
        }
    }
}

/// The box around all of `boxes`: nothing where there is no box, or where
/// one of them is missing.
pub open spec fn joined(boxes: Seq<Option<BoundingBox>>) -> Option<BoundingBox> {
    if boxes.len() == 0 {
        None
    } else {
        match boxes[0] {
            Some(b) => joined_from(boxes, 1, b),
            None => None,
        }
    }
}

/// The box around all of `boxes`.
pub fn join_all(boxes: &[Option<BoundingBox>]) -> (r: Option<BoundingBox>)
    ensures
        r == joined(boxes@),
{
    let n = boxes.len();
    if n == 0 {
        return None;
    }
    let mut group_box = match boxes[0] {
        Some(b) => b,
        None => {
            return None;
        },
    };
    let mut i: usize = 1;
    while i < n
        invariant
            1 <= i <= n == boxes@.len(),
            joined(boxes@) == joined_from(boxes@, i as int, group_box),
        decreases n - i,
    {
        match boxes[i] {
            Some(b) => {
                group_box = group_box.join(b);
            },
            None => {
                return None;
            },
        }
        i += 1;
    }
    Some(group_box)
}

/// The tree of a world that was built, or why none was built.
pub open spec fn tree_of<B, O>(r: Result<World<B, BvhNode<O>>, BvhError>) -> Result<
    BvhNode<O>,
    BvhError,
> {
    match r {
        Ok(w) => Ok(w.objects@[0]),
        Err(e) => Err(e),
    }
}

impl<B, O: Intersect> World<B, O> {
    /// A world without things.
    pub fn new(background: B) -> (w: Self)
        ensures
            w.background == background,
            w.objects@.len() == 0,
    {
        World { background, objects: Vec::new() }
    }

    /// Takes all things out of the world.
    pub fn clear(&mut self)
        ensures
            final(self).objects@.len() == 0,
            final(self).background == old(self).background,
    {
        self.objects.clear();
    }

    /// Puts a thing into the world, after those that are in it.
    pub fn add(&mut self, object: O)
        ensures
            final(self).objects@ == old(self).objects@.push(object),
            final(self).background == old(self).background,
    {
        self.objects.push(object);
    }

    /// Builds the hierarchy over the things of the world: the world that
    /// comes back holds the hierarchy as its only thing, in front of the
    /// same background. Nothing is built where a thing gives no box; over
    /// no things the tree has no children, and no ray hits it.
    ///
    /// The boxes are the things' to give: the tree is what `BvhNode::over`
    /// makes of the things and the boxes that they gave.
    pub fn build_bvh(self) -> (r: Result<World<B, BvhNode<O>>, BvhError>)
        ensures
            exists|boxes: Seq<Option<BoundingBox>>| #[trigger]
                gives_boxes(self.objects@, boxes) && built_over(self.objects@, boxes, tree_of(r)),
            r matches Ok(w) ==> {
                &&& w.background == self.background
                &&& w.objects@.len() == 1
                &&& items_of(node_leaves(w.objects@[0])).to_multiset()
                    == self.objects@.to_multiset()
                &&& node_halved(w.objects@[0], self.objects@.len())
                &&& tree_fits(w.objects@[0])
                &&& node_cut(w.objects@[0])
                &&& leaves_give_boxes(w.objects@[0])
            },
            r matches Err(BvhError::MissingBoundingBox) ==> one_gives_none(self.objects@),
            self.objects@.len() == 0 ==> r is Ok,
    {
        let World { background, objects } = self;
        match BvhNode::new(objects) {
            Ok(node) => {
                let mut objects: Vec<BvhNode<O>> = Vec::new();
                objects.push(node);
                Ok(World { background, objects })
            },
            Err(e) => Err(e),
        }
    }

    /// Where `ray` hits the nearest thing between `t_min` and `t_max`: the
    /// things are scanned in order, each asked up to where the last hit
    /// was, and the last hit counts.
    ///
    /// What is hit is the things' to say, and they may say one thing now
    /// and another then: the hit is one that `may_scan` allows, made of
    /// answers that the things gave. A world without things is never hit,
    /// and whatever answers the things keep to, the hit is what `scanned`
    /// says of those answers.
    pub fn intersect<'a>(&'a self, ray: &O::Ray, t_min: Scalar, t_max: Scalar) -> (r: Option<
        Hit<'a, O::Surface, O::Material>,
    >)
        ensures
            may_scan(&self.objects, thing_answers::<O>(ray, t_min), t_max, r),
            self.objects@.len() == 0 ==> r is None,
            forall|answer: spec_fn(&'a O, Scalar) -> Option<Hit<'a, O::Surface, O::Material>>| #[trigger]
                things_keep_to::<O>(ray, t_min, answer) ==> r == scanned(
                    &self.objects,
                    answer,
                    t_max,
                ),
    {
        let probe = |item: &'a O, limit: Scalar| -> (r: Option<Hit<'a, O::Surface, O::Material>>)
            ensures
                call_ensures(O::intersect, (item, ray, t_min, limit), r),
            { item.intersect(ray, t_min, limit) };
        let r = scan(&self.objects, &probe, t_max);
        proof {
            assert(answers_within(asked(probe), thing_answers::<O>(ray, t_min)));
            lemma_may_scan_widens(
                &self.objects,
                asked(probe),
                thing_answers::<O>(ray, t_min),
                0,
                t_max,
                None,
                r,
            );
            assert forall|
                answer: spec_fn(&'a O, Scalar) -> Option<Hit<'a, O::Surface, O::Material>>,
            | #[trigger] things_keep_to::<O>(ray, t_min, answer) implies r == scanned(
                &self.objects,
                answer,
                t_max,
            ) by {
                assert(agrees(probe, answer));
            }
        }
        r
    }

    /// Where a ray of a path hits the nearest thing: the things are asked
    /// from a thousandth on, with no far limit.
    pub fn strike<'a>(&'a self, ray: &O::Ray) -> (r: Option<Hit<'a, O::Surface, O::Material>>)
        ensures
            may_scan(
                &self.objects,
                thing_answers::<O>(ray, Scalar { bits: PATH_NEAR_BITS }),
                Scalar::infinity_spec(),
                r,
            ),
            self.objects@.len() == 0 ==> r is None,
            forall|answer: spec_fn(&'a O, Scalar) -> Option<Hit<'a, O::Surface, O::Material>>| #[trigger]
                things_keep_to::<O>(ray, Scalar { bits: PATH_NEAR_BITS }, answer) ==> r == scanned(
                    &self.objects,
                    answer,
                    Scalar::infinity_spec(),
                ),
    {
        self.intersect(ray, Scalar::from_bits(PATH_NEAR_BITS), Scalar::infinity())
    }

    /// The box around all the things: the join of the boxes that the things
    /// give for themselves, in their order, and nothing where one gives
    /// none. A world without things has no box.
    pub fn bounding_box(&self) -> (r: Option<BoundingBox>)
        ensures
            self.objects@.len() == 0 ==> r is None,
            exists|boxes: Seq<Option<BoundingBox>>| #[trigger]
                gives_boxes(self.objects@, boxes) && r == joined(boxes),
    {
        let n = self.objects.len();
        let mut boxes: Vec<Option<BoundingBox>> = Vec::new();
        let mut i: usize = 0;
        while i < n
            invariant
                i <= n == self.objects@.len(),
                boxes@.len() == i,
                forall|k: int|
                    0 <= k < i ==> call_ensures(
                        O::bounding_box,
                        (&#[trigger] self.objects@[k],),
                        boxes@[k],
                    ),
            decreases n - i,
        {
            boxes.push(self.objects[i].bounding_box());
            i += 1;
        }
        assert(gives_boxes(self.objects@, boxes@));
        join_all(boxes.as_slice())
    }
}

/// A world over no things is never hit once its hierarchy is built: the
/// scan of a hierarchy without children as the only thing finds nothing.
pub proof fn lemma_built_over_nothing_is_never_hit<'a, O: Intersect + 'a>(
    built: &'a Vec<BvhNode<O>>,
    ray: &O::Ray,
    t_min: Scalar,
    limit: Scalar,
    r: Option<Hit<'a, O::Surface, O::Material>>,
)
    requires
        built@.len() == 1,
        node_halved(built@[0], 0),
        may_scan(built, thing_answers::<BvhNode<O>>(ray, t_min), limit, r),
    ensures
        r is None,
{
    reveal_with_fuel(may_scan_from, 3);
    let answers = thing_answers::<BvhNode<O>>(ray, t_min);
    let hit = choose|hit: Option<Hit<'a, O::Surface, O::Material>>| #[trigger]
        answers(&built@[0], limit, hit) && if hit is Some {
            may_scan_from(built, answers, 1, limit_of(limit, hit), hit, r)
        } else {
            may_scan_from(built, answers, 1, limit, None, r)
        };
    assert(hit is None);
}

impl<B: Background, O: Intersect> Background for World<B, O> {
    type Ray = B::Ray;

    type Colour = B::Colour;

    /// What `ray` sees where it hits nothing: an answer of the background
    /// of the world to `ray`.
    fn background(&self, ray: &Self::Ray) -> (r: Self::Colour)
        ensures
            call_ensures(B::background, (&self.background, ray), r),
    {
        self.background.background(ray)
    }
}

impl<B, O: Intersect> Intersect for World<B, O> {
    type Ray = O::Ray;

    type Surface = O::Surface;

    type Material = O::Material;

    /// Where `ray` hits the nearest thing of the world: the scan of its
    /// things.
    fn intersect<'a>(&'a self, ray: &Self::Ray, t_min: Scalar, t_max: Scalar) -> (r: Option<
        Hit<'a, Self::Surface, Self::Material>,
    >)
        ensures
            may_scan(&self.objects, thing_answers::<O>(ray, t_min), t_max, r),
            self.objects@.len() == 0 ==> r is None,
            forall|answer: spec_fn(&'a O, Scalar) -> Option<Hit<'a, O::Surface, O::Material>>| #[trigger]
                things_keep_to::<O>(ray, t_min, answer) ==> r == scanned(
                    &self.objects,
                    answer,
                    t_max,
                ),
    {
        World::intersect(self, ray, t_min, t_max)
    }

    /// The box around all the things: the join of the boxes that the things
    /// give for themselves.
    fn bounding_box(&self) -> (r: Option<BoundingBox>)
        ensures
            self.objects@.len() == 0 ==> r is None,
            exists|boxes: Seq<Option<BoundingBox>>| #[trigger]
                gives_boxes(self.objects@, boxes) && r == joined(boxes),
    {
        World::bounding_box(self)
    }
}

} // verus!
