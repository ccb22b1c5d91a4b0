//! The path of a ray through a scene: how its bounces are counted and its
//! light is gathered. What the ray hits, how it scatters and how light is
//! combined are functions of the caller. Surfaces scatter at random, so a
//! path is stated as a relation over the answers that these functions may
//! give (`may_trace`).

use vstd::prelude::*;

verus! {

/// The functions that a path is traced with: `R` is a ray, `H` a hit, `C` a
/// colour and `A` what a surface keeps of the light.
pub struct Tracer<FI, FE, FS, FB, FC, C> {
    /// Where a ray hits the scene, if it does.
    pub intersect: FI,
    /// The light that the surface at a hit gives off.
    pub emit: FE,
    /// What the surface keeps of the light and where the ray goes on, or
    /// nothing where the ray ends.
    pub scatter: FS,
    /// What a ray sees that hits nothing.
    pub background: FB,
    /// The light that leaves a surface, from the light that arrives, what
    /// the surface keeps of it, and the light that it gives off.
    pub combine: FC,
    /// No light.
    pub black: C,
}

/// What the functions of a tracer may answer, each as a relation between
/// a question and an answer. A function that draws random numbers may give
/// many answers to one question.
#[verifier::reject_recursive_types(R)]
#[verifier::reject_recursive_types(H)]
#[verifier::reject_recursive_types(A)]
#[verifier::reject_recursive_types(C)]
pub ghost struct Answers<R, H, A, C> {
    /// Whether a ray may hit the scene at the hit given, or may hit
    /// nothing.
    pub strikes: spec_fn(R, Option<H>) -> bool,
    /// Whether the surface at a hit may give off the light given.
    pub emits: spec_fn(H, C) -> bool,
    /// Whether the surface at a hit may scatter a ray as given, or may end
    /// it.
    pub scatters: spec_fn(H, R, Option<(A, R)>) -> bool,
    /// Whether a ray that hits nothing may see the light given.
    pub behind: spec_fn(R, C) -> bool,
    /// Whether the light that arrives, what the surface keeps of it and
    /// what the surface gives off may combine to the light given last.
    pub combines: spec_fn(C, A, C, C) -> bool,
    /// No light.
    pub black: C,
}

impl<FI, FE, FS, FB, FC, C> Tracer<FI, FE, FS, FB, FC, C> {
    /// What the functions of this tracer may answer.
    pub open spec fn answers<R, H, A>(&self) -> Answers<R, H, A, C> where
        FI: Fn(R) -> Option<H>,
        FE: Fn(&H) -> C,
        FS: Fn(&H, R) -> Option<(A, R)>,
        FB: Fn(R) -> C,
        FC: Fn(C, A, C) -> C,
     {
        Answers {
            strikes: |ray: R, hit: Option<H>| call_ensures(self.intersect, (ray,), hit),
            emits: |hit: H, light: C| call_ensures(self.emit, (&hit,), light),
            scatters: |hit: H, ray: R, on: Option<(A, R)>|
                call_ensures(self.scatter, (&hit, ray), on),
            behind: |ray: R, light: C| call_ensures(self.background, (ray,), light),
            combines: |rest: C, kept: A, emitted: C, light: C|
                call_ensures(self.combine, (rest, kept, emitted), light),
            black: self.black,
        }
    }

    /// Every function can be asked anything.
    pub open spec fn total<R, H, A>(&self) -> bool where
        FI: Fn(R) -> Option<H>,
        FE: Fn(&H) -> C,
        FS: Fn(&H, R) -> Option<(A, R)>,
        FB: Fn(R) -> C,
        FC: Fn(C, A, C) -> C,
     {
        &&& forall|ray: R| call_requires(self.intersect, (ray,))
        &&& forall|hit: &H| call_requires(self.emit, (hit,))
        &&& forall|hit: &H, ray: R| call_requires(self.scatter, (hit, ray))
        &&& forall|ray: R| call_requires(self.background, (ray,))
        &&& forall|light: C, kept: A, emitted: C| call_requires(self.combine, (light, kept, emitted))
    }
}

/// Whether `ray` may hit the scene at `hit`, where the surface may give off
/// `emitted`.
pub open spec fn may_strike<R, H, A, C>(
    answers: Answers<R, H, A, C>,
    ray: R,
    hit: H,
    emitted: C,
) -> bool {
    (answers.strikes)(ray, Some(hit)) && (answers.emits)(hit, emitted)
}

/// Whether the surface at `hit` may scatter `ray` on as `next` and keep
/// `kept` of the light, and `light` may be what is combined of `rest`,
/// `kept` and `emitted`.
pub open spec fn may_pass_on<R, H, A, C>(
    answers: Answers<R, H, A, C>,
    hit: H,
    ray: R,
    kept: A,
    next: R,
    rest: C,
    emitted: C,
    light: C,
) -> bool {
    (answers.scatters)(hit, ray, Some((kept, next))) && (answers.combines)(
        rest,
        kept,
        emitted,
        light,
    )
}

/// Whether `light` and `left` may come of tracing the path of `ray` with
/// `depth` bounces to go, each function giving one of its answers each
/// time it is asked. At depth 0 there is no light and no depth left. A ray
/// that hits nothing sees the background, and a ray that ends at a surface
/// sees what the surface gives off; neither uses up depth. A ray that is
/// scattered goes on with one bounce less: the light of the rest of the
/// path is combined with what the surface keeps and gives off, and the
/// depth left is that of the rest of the path.
pub open spec fn may_trace<R, H, A, C>(
    answers: Answers<R, H, A, C>,
    ray: R,
    depth: nat,
    light: C,
    left: nat,
) -> bool
    decreases depth,
{
    if depth == 0 {
        light == answers.black && left == 0
    } else {
        ||| {
            &&& (answers.strikes)(ray, None::<H>)
            &&& (answers.behind)(ray, light)
            &&& left == depth
        }
        ||| exists|hit: H, emitted: C| #[trigger]
            may_strike(answers, ray, hit, emitted) && {
                ||| {
                    &&& (answers.scatters)(hit, ray, None::<(A, R)>)
                    &&& light == emitted
                    &&& left == depth
                }
                ||| exists|kept: A, next: R, rest: C| #[trigger]
                    may_pass_on(answers, hit, ray, kept, next, rest, emitted, light) && may_trace(
                        answers,
                        next,
                        (depth - 1) as nat,
                        rest,
                        left,
                    )
            }
    }
}

/// What a ray sees first.
pub enum Seen<A, C, H> {
    /// A surface that scatters the ray: what it keeps of the light, and
    /// the hit.
    Scattering(A, H),
    /// A surface that ends the ray: what it gives off, and the hit.
    Glowing(C, H),
    /// Nothing but the background.
    Background(C),
}

/// Whether the surface at `hit` may scatter `ray` and keep `kept` of the
/// light.
pub open spec fn may_scatter<R, H, A, C>(
    answers: Answers<R, H, A, C>,
    hit: H,
    ray: R,
    kept: A,
    next: R,
) -> bool {
    (answers.scatters)(hit, ray, Some((kept, next)))
}

/// Whether `ray` may see `sight` first, each function giving one of its
/// answers: the background where the ray hits nothing; a surface that ends
/// it, with what the surface gives off; or a surface that scatters it,
/// with what the surface keeps of the light.
pub open spec fn may_see<R, H, A, C>(
    answers: Answers<R, H, A, C>,
    ray: R,
    sight: Seen<A, C, H>,
) -> bool {
    match sight {
        Seen::Background(light) => {
            &&& (answers.strikes)(ray, None::<H>)
            &&& (answers.behind)(ray, light)
        },
        Seen::Glowing(light, hit) => {
            &&& may_strike(answers, ray, hit, light)
            &&& (answers.scatters)(hit, ray, None::<(A, R)>)
        },
        Seen::Scattering(kept, hit) => {
            &&& (exists|emitted: C| #[trigger] may_strike(answers, ray, hit, emitted))
            &&& (exists|next: R| #[trigger] may_scatter(answers, hit, ray, kept, next))
        },
    }
}

/// Whatever the functions answer, a path leaves no more depth than it was
/// given.
pub proof fn lemma_depth_left<R, H, A, C>(
    answers: Answers<R, H, A, C>,
    ray: R,
    depth: nat,
    light: C,
    left: nat,
)
    requires
        may_trace(answers, ray, depth, light, left),
    ensures
        left <= depth,
    decreases depth,
{
    if depth > 0 && left != depth {
        let (hit, emitted) = choose|hit: H, emitted: C| #[trigger]
            may_strike(answers, ray, hit, emitted) && {
                ||| {
                    &&& (answers.scatters)(hit, ray, None::<(A, R)>)
                    &&& light == emitted
                    &&& left == depth
                }
                ||| exists|kept: A, next: R, rest: C| #[trigger]
                    may_pass_on(answers, hit, ray, kept, next, rest, emitted, light) && may_trace(
                        answers,
                        next,
                        (depth - 1) as nat,
                        rest,
                        left,
                    )
            };
        let (kept, next, rest) = choose|kept: A, next: R, rest: C| #[trigger]
            may_pass_on(answers, hit, ray, kept, next, rest, emitted, light) && may_trace(
                answers,
                next,
                (depth - 1) as nat,
                rest,
                left,
            );
        lemma_depth_left(answers, next, (depth - 1) as nat, rest, left);
    }
}

/// Whether `ray` can only miss the scene.
pub open spec fn only_misses<R, H, A, C>(answers: Answers<R, H, A, C>, ray: R) -> bool {
    forall|hit: H| !#[trigger] (answers.strikes)(ray, Some(hit))
}

/// Whether `ray` can only hit the scene, at surfaces that can only scatter
/// it on as rays that can only miss.
pub open spec fn only_bounces_once<R, H, A, C>(answers: Answers<R, H, A, C>, ray: R) -> bool {
    &&& !(answers.strikes)(ray, None::<H>)
    &&& forall|hit: H| #[trigger]
        (answers.strikes)(ray, Some(hit)) ==> !(answers.scatters)(hit, ray, None::<(A, R)>)
    &&& forall|hit: H, kept: A, next: R| #[trigger]
        (answers.scatters)(hit, ray, Some((kept, next))) ==> only_misses(answers, next)
}

/// A ray that can only miss sees the background and uses up no depth.
pub proof fn lemma_miss_keeps_depth<R, H, A, C>(
    answers: Answers<R, H, A, C>,
    ray: R,
    depth: nat,
    light: C,
    left: nat,
)
    requires
        depth >= 1,
        only_misses(answers, ray),
        may_trace(answers, ray, depth, light, left),
    ensures
        left == depth,
        (answers.behind)(ray, light),
{
}

/// A ray that can only be scattered once and then miss leaves one bounce
/// less than it was given.
pub proof fn lemma_one_bounce<R, H, A, C>(
    answers: Answers<R, H, A, C>,
    ray: R,
    depth: nat,
    light: C,
    left: nat,
)
    requires
        depth >= 1,
        only_bounces_once(answers, ray),
        may_trace(answers, ray, depth, light, left),
    ensures
        left == depth - 1,
{
    let (hit, emitted) = choose|hit: H, emitted: C| #[trigger]
        may_strike(answers, ray, hit, emitted) && {
            ||| {
                &&& (answers.scatters)(hit, ray, None::<(A, R)>)
                &&& light == emitted
                &&& left == depth
            }
            ||| exists|kept: A, next: R, rest: C| #[trigger]
                may_pass_on(answers, hit, ray, kept, next, rest, emitted, light) && may_trace(
                    answers,
                    next,
                    (depth - 1) as nat,
                    rest,
                    left,
                )
        };
    let (kept, next, rest) = choose|kept: A, next: R, rest: C| #[trigger]
        may_pass_on(answers, hit, ray, kept, next, rest, emitted, light) && may_trace(
            answers,
            next,
            (depth - 1) as nat,
            rest,
            left,
        );
    if depth > 1 {
        lemma_miss_keeps_depth(answers, next, (depth - 1) as nat, rest, left);
    }
}

/// Whether every function has one answer at most to each question.
pub open spec fn one_answer_each<R, H, A, C>(answers: Answers<R, H, A, C>) -> bool {
    &&& forall|ray: R, a: Option<H>, b: Option<H>|
        #![trigger (answers.strikes)(ray, a), (answers.strikes)(ray, b)]
        (answers.strikes)(ray, a) && (answers.strikes)(ray, b) ==> a == b
    &&& forall|hit: H, a: C, b: C|
        #![trigger (answers.emits)(hit, a), (answers.emits)(hit, b)]
        (answers.emits)(hit, a) && (answers.emits)(hit, b) ==> a == b
    &&& forall|hit: H, ray: R, a: Option<(A, R)>, b: Option<(A, R)>|
        #![trigger (answers.scatters)(hit, ray, a), (answers.scatters)(hit, ray, b)]
        (answers.scatters)(hit, ray, a) && (answers.scatters)(hit, ray, b) ==> a == b
    &&& forall|ray: R, a: C, b: C|
        #![trigger (answers.behind)(ray, a), (answers.behind)(ray, b)]
        (answers.behind)(ray, a) && (answers.behind)(ray, b) ==> a == b
    &&& forall|rest: C, kept: A, emitted: C, a: C, b: C|
        #![trigger (answers.combines)(rest, kept, emitted, a), (answers.combines)(rest, kept, emitted, b)]
        (answers.combines)(rest, kept, emitted, a) && (answers.combines)(rest, kept, emitted, b)
            ==> a == b
}

/// Where every function has one answer at most to each question, a path
/// has one light and one depth left.
pub proof fn lemma_one_path<R, H, A, C>(
    answers: Answers<R, H, A, C>,
    ray: R,
    depth: nat,
    light: C,
    left: nat,
    other_light: C,
    other_left: nat,
)
    requires
        one_answer_each(answers),
        may_trace(answers, ray, depth, light, left),
        may_trace(answers, ray, depth, other_light, other_left),
    ensures
        light == other_light,
        left == other_left,
    decreases depth,
{
    if depth > 0 {
        if (answers.strikes)(ray, None::<H>) {
            assert(forall|hit: H, emitted: C| !may_strike(answers, ray, hit, emitted));
        } else {
            let (hit, emitted) = choose|hit: H, emitted: C| #[trigger]
                may_strike(answers, ray, hit, emitted) && {
                    ||| {
                        &&& (answers.scatters)(hit, ray, None::<(A, R)>)
                        &&& light == emitted
                        &&& left == depth
                    }
                    ||| exists|kept: A, next: R, rest: C| #[trigger]
                        may_pass_on(answers, hit, ray, kept, next, rest, emitted, light)
                            && may_trace(answers, next, (depth - 1) as nat, rest, left)
                };
            let (hit2, emitted2) = choose|hit: H, emitted: C| #[trigger]
                may_strike(answers, ray, hit, emitted) && {
                    ||| {
                        &&& (answers.scatters)(hit, ray, None::<(A, R)>)
                        &&& other_light == emitted
                        &&& other_left == depth
                    }
                    ||| exists|kept: A, next: R, rest: C| #[trigger]
                        may_pass_on(answers, hit, ray, kept, next, rest, emitted, other_light)
                            && may_trace(answers, next, (depth - 1) as nat, rest, other_left)
                };
            assert(Some(hit) == Some(hit2));
            assert(emitted == emitted2);
            if (answers.scatters)(hit, ray, None::<(A, R)>) {
                assert(forall|kept: A, next: R, rest: C, l: C|
                    !may_pass_on(answers, hit, ray, kept, next, rest, emitted, l));
            } else {
                let (kept, next, rest) = choose|kept: A, next: R, rest: C| #[trigger]
                    may_pass_on(answers, hit, ray, kept, next, rest, emitted, light) && may_trace(
                        answers,
                        next,
                        (depth - 1) as nat,
                        rest,
                        left,
                    );
                let (kept2, next2, rest2) = choose|kept: A, next: R, rest: C| #[trigger]
                    may_pass_on(answers, hit, ray, kept, next, rest, emitted, other_light)
                        && may_trace(answers, next, (depth - 1) as nat, rest, other_left);
                assert(Some((kept, next)) == Some((kept2, next2)));
                lemma_one_path(answers, next, (depth - 1) as nat, rest, left, rest2, other_left);
            }
        }
    }
}

impl<FI, FE, FS, FB, FC, C: Copy> Tracer<FI, FE, FS, FB, FC, C> {
    /// Traces the path of `ray` with `depth` bounces to go: the light along
    /// it, and the depth that is left.
    ///
    /// The result is one that `may_trace` allows: it is made of answers
    /// that the functions gave, put together as a path is. So no more depth
    /// is left than was given, and at depth 0 there is no light.
    pub fn trace<R: Copy, H, A>(&self, ray: R, depth: u32) -> (r: (C, u32)) where
        FI: Fn(R) -> Option<H>,
        FE: Fn(&H) -> C,
        FS: Fn(&H, R) -> Option<(A, R)>,
        FB: Fn(R) -> C,
        FC: Fn(C, A, C) -> C,

        requires
            self.total::<R, H, A>(),
        ensures
            may_trace(self.answers::<R, H, A>(), ray, depth as nat, r.0, r.1 as nat),
            r.1 <= depth,
            depth == 0 ==> r == (self.black, 0u32),
        decreases depth,
    {
        let ghost answers = self.answers::<R, H, A>();
        if depth == 0 {
            (self.black, depth)
        } else {
            match (self.intersect)(ray) {
                Some(hit) => {
                    let emitted = (self.emit)(&hit);
                    match (self.scatter)(&hit, ray) {
                        Some((kept, next)) => {
                            let (rest, left) = self.trace::<R, H, A>(next, depth - 1);
                            let light = (self.combine)(rest, kept, emitted);
                            proof {
                                assert(may_strike(answers, ray, hit, emitted));
                                assert(may_pass_on(
                                    answers,
                                    hit,
                                    ray,
                                    kept,
                                    next,
                                    rest,
                                    emitted,
                                    light,
                                ));
                            }
                            (light, left)
                        },
                        None => {
                            proof {
                                assert(may_strike(answers, ray, hit, emitted));
                            }
                            (emitted, depth)
                        },
                    }
                },
                None => ((self.background)(ray), depth),
            }
        }
    }

    /// What `ray` sees first: a sight that `may_see` allows, made of
    /// answers that the functions gave.
    pub fn see<R: Copy, H, A>(&self, ray: R) -> (r: Seen<A, C, H>) where
        FI: Fn(R) -> Option<H>,
        FE: Fn(&H) -> C,
        FS: Fn(&H, R) -> Option<(A, R)>,
        FB: Fn(R) -> C,
        FC: Fn(C, A, C) -> C,

        requires
            self.total::<R, H, A>(),
        ensures
            may_see(self.answers::<R, H, A>(), ray, r),
    {
        let ghost answers = self.answers::<R, H, A>();
        match (self.intersect)(ray) {
            Some(hit) => {
                let emitted = (self.emit)(&hit);
                match (self.scatter)(&hit, ray) {
                    Some((kept, next)) => {
                        let r = Seen::Scattering(kept, hit);
                        proof {
                            assert(r matches Seen::Scattering(k, h) && may_strike(
                                answers,
                                ray,
                                h,
                                emitted,
                            ));
                            assert(r matches Seen::Scattering(k, h) && may_scatter(
                                answers,
                                h,
                                ray,
                                k,
                                next,
                            ));
                        }
                        r
                    },
                    None => {
                        proof {
                            assert(may_strike(answers, ray, hit, emitted));
                        }
                        Seen::Glowing(emitted, hit)
                    },
                }
            },
            None => Seen::Background((self.background)(ray)),
        }
    }
}

} // verus!
