use mass_raytrace::bvh::{sort_on_axis, Bounded, BvhChild, BvhError, BvhNode, Hit, Intersect, Probe};
use mass_raytrace::geom::{BoundingBox, V3};
use mass_raytrace::nearest::scan;
use mass_raytrace::scalar::Scalar;
use mass_raytrace::world::{Background, World, PATH_NEAR_BITS};

fn s(v: f32) -> Scalar {
    Scalar::from_bits(v.to_bits())
}

fn f(v: Scalar) -> f32 {
    f32::from_bits(v.to_bits())
}

#[derive(Clone, Copy, Debug)]
struct Ray {
    origin: [f32; 3],
    direction: [f32; 3],
}

impl Probe for Ray {
    fn crosses(&self, bounds: &BoundingBox, t_min: Scalar, t_max: Scalar) -> bool {
        let lo = [f(bounds.minimum.x), f(bounds.minimum.y), f(bounds.minimum.z)];
        let hi = [f(bounds.maximum.x), f(bounds.maximum.y), f(bounds.maximum.z)];
        let mut t_min = f(t_min);
        let mut t_max = f(t_max);
        for axis in 0..3 {
            let a = (lo[axis] - self.origin[axis]) / self.direction[axis];
            let b = (hi[axis] - self.origin[axis]) / self.direction[axis];
            t_min = a.min(b).max(t_min);
            t_max = a.max(b).min(t_max);
            if t_max < t_min {
                return false;
            }
        }
        true
    }
}

#[derive(Clone, Debug)]
struct Sphere {
    center: [f32; 3],
    radius: f32,
    id: usize,
}

impl Intersect for Sphere {
    type Ray = Ray;
    type Surface = [f32; 3];
    type Material = usize;

    fn intersect<'a>(
        &'a self,
        ray: &Ray,
        t_min: Scalar,
        t_max: Scalar,
    ) -> Option<Hit<'a, [f32; 3], usize>> {
        let (t_min, t_max) = (f(t_min), f(t_max));
        let oc = [
            ray.origin[0] - self.center[0],
            ray.origin[1] - self.center[1],
            ray.origin[2] - self.center[2],
        ];
        let d = ray.direction;
        let a = d[0] * d[0] + d[1] * d[1] + d[2] * d[2];
        let half_b = oc[0] * d[0] + oc[1] * d[1] + oc[2] * d[2];
        let c = oc[0] * oc[0] + oc[1] * oc[1] + oc[2] * oc[2] - self.radius * self.radius;
        let discriminant = half_b * half_b - a * c;
        if discriminant < 0.0 {
            return None;
        }
        let sqrt_d = discriminant.sqrt();
        let mut root = (-half_b - sqrt_d) / a;
        if root < t_min || t_max < root {
            root = (-half_b + sqrt_d) / a;
            if root < t_min || t_max < root {
                return None;
            }
        }
        let point = [
            ray.origin[0] + d[0] * root,
            ray.origin[1] + d[1] * root,
            ray.origin[2] + d[2] * root,
        ];
        Some(Hit { t: s(root), surface: point, material: &self.id })
    }

    fn bounding_box(&self) -> Option<BoundingBox> {
        let r = self.radius.abs();
        Some(BoundingBox::new(
            V3::new(s(self.center[0] - r), s(self.center[1] - r), s(self.center[2] - r)),
            V3::new(s(self.center[0] + r), s(self.center[1] + r), s(self.center[2] + r)),
        ))
    }
}

struct Solid([f32; 3]);

impl Background for Solid {
    type Ray = Ray;
    type Colour = [f32; 3];

    fn background(&self, _ray: &Ray) -> [f32; 3] {
        self.0
    }
}

/// A small generator of its own, so that the scenes are the same on every run.
struct Lcg(u64);

impl Lcg {
    fn next(&mut self) -> f32 {
        self.0 = self.0.wrapping_mul(6364136223846793005).wrapping_add(1442695040888963407);
        ((self.0 >> 40) as f32) / ((1u64 << 24) as f32)
    }

    fn between(&mut self, lo: f32, hi: f32) -> f32 {
        lo + (hi - lo) * self.next()
    }
}

fn count_leaves(node: &BvhNode<Sphere>) -> usize {
    let side = |child: &Option<BvhChild<Sphere>>| match child {
        Some(BvhChild::Leaf(_)) => 1,
        Some(BvhChild::Node(n)) => count_leaves(n),
        None => 0,
    };
    side(&node.left) + side(&node.right)
}

fn collect_ids(node: &BvhNode<Sphere>, ids: &mut Vec<usize>) {
    for child in [&node.left, &node.right] {
        match child {
            Some(BvhChild::Leaf(leaf)) => ids.push(leaf.item.id),
            Some(BvhChild::Node(n)) => collect_ids(n, ids),
            None => {}
        }
    }
}

fn depth(node: &BvhNode<Sphere>) -> usize {
    let side = |child: &Option<BvhChild<Sphere>>| match child {
        Some(BvhChild::Node(n)) => depth(n),
        _ => 0,
    };
    1 + side(&node.left).max(side(&node.right))
}

fn check_boxes(node: &BvhNode<Sphere>) {
    let side = |child: &Option<BvhChild<Sphere>>| match child {
        Some(BvhChild::Leaf(leaf)) => {
            assert_eq!(Some(leaf.bounds), leaf.item.bounding_box());
            Some(leaf.bounds)
        }
        Some(BvhChild::Node(n)) => {
            check_boxes(n);
            Some(n.bounding_box)
        }
        None => None,
    };
    match (side(&node.left), side(&node.right)) {
        (Some(l), Some(r)) => assert_eq!(node.bounding_box, l.join(r)),
        (Some(l), None) => assert_eq!(node.bounding_box, l),
        other => panic!("a node without a left child: {:?}", other),
    }
}

fn random_spheres(rng: &mut Lcg, count: usize) -> Vec<Sphere> {
    (0..count)
        .map(|id| Sphere {
            center: [rng.between(-10.0, 10.0), rng.between(-10.0, 10.0), rng.between(-10.0, 10.0)],
            radius: rng.between(0.1, 1.5),
            id,
        })
        .collect()
}

#[test]
fn hierarchy_holds_every_thing_once_and_is_halved() {
    let mut rng = Lcg(7);
    for count in [1usize, 2, 3, 4, 5, 8, 17, 64, 255, 256] {
        let spheres = random_spheres(&mut rng, count);
        let node = BvhNode::new(spheres).unwrap();
        assert_eq!(count_leaves(&node), count);
        let mut ids = Vec::new();
        collect_ids(&node, &mut ids);
        ids.sort();
        assert_eq!(ids, (0..count).collect::<Vec<_>>());
        check_boxes(&node);
        let mut levels = 1;
        while (1usize << levels) < count {
            levels += 1;
        }
        assert!(depth(&node) <= levels.max(1), "{} things, depth {}", count, depth(&node));
    }
}

#[test]
fn hierarchy_of_one_thing_hangs_it_to_the_left() {
    let sphere = Sphere { center: [1.0, 2.0, 3.0], radius: 0.5, id: 9 };
    let node = BvhNode::new(vec![sphere.clone()]).unwrap();
    assert!(matches!(node.left, Some(BvhChild::Leaf(ref leaf)) if leaf.item.id == 9));
    assert!(node.right.is_none());
    assert_eq!(Some(node.bounding_box), sphere.bounding_box());
}

#[test]
fn hierarchy_of_two_things_orders_them_on_some_axis() {
    let a = Sphere { center: [5.0, 5.0, 5.0], radius: 1.0, id: 0 };
    let b = Sphere { center: [-5.0, -5.0, -5.0], radius: 1.0, id: 1 };
    // whichever axis is taken, the second thing stands first on it
    for _ in 0..20 {
        let node = BvhNode::new(vec![a.clone(), b.clone()]).unwrap();
        assert!(matches!(node.left, Some(BvhChild::Leaf(ref leaf)) if leaf.item.id == 1));
        assert!(matches!(node.right, Some(BvhChild::Leaf(ref leaf)) if leaf.item.id == 0));
    }
}

#[test]
fn traversal_agrees_with_the_scan_of_all_things() {
    let mut rng = Lcg(2024);
    for &count in &[1usize, 2, 3, 10, 100, 256] {
        let spheres = random_spheres(&mut rng, count);
        let mut scan: World<Solid, Sphere> = World::new(Solid([0.0; 3]));
        for sphere in spheres.iter().cloned() {
            scan.add(sphere);
        }
        let mut tree_world: World<Solid, Sphere> = World::new(Solid([0.0; 3]));
        for sphere in spheres.iter().cloned() {
            tree_world.add(sphere);
        }
        let tree_world = tree_world.build_bvh().ok().unwrap();
        assert_eq!(tree_world.objects.len(), 1);
        let mut hits = 0;
        for _ in 0..1024 {
            let ray = Ray {
                origin: [rng.between(-12.0, 12.0), rng.between(-12.0, 12.0), rng.between(-12.0, 12.0)],
                direction: [rng.between(-1.0, 1.0), rng.between(-1.0, 1.0), rng.between(-1.0, 1.0)],
            };
            let expected = scan.intersect(&ray, s(0.001), s(f32::INFINITY));
            let found = tree_world.intersect(&ray, s(0.001), s(f32::INFINITY));
            match (expected, found) {
                (None, None) => {}
                (Some(e), Some(g)) => {
                    hits += 1;
                    assert!((f(e.t) - f(g.t)).abs() <= 1e-5);
                    assert_eq!(e.material, g.material);
                }
                (e, g) => panic!(
                    "scan {:?}, hierarchy {:?}",
                    e.map(|h| f(h.t)),
                    g.map(|h| f(h.t))
                ),
            }
        }
        if count >= 100 {
            assert!(hits > 0);
        }
    }
}

#[test]
fn sphere_is_hit_at_its_near_side() {
    let sphere = Sphere { center: [0.0, 0.0, -5.0], radius: 2.0, id: 0 };
    let mut world: World<Solid, Sphere> = World::new(Solid([0.0; 3]));
    world.add(sphere);
    let world = world.build_bvh().ok().unwrap();
    let ray = Ray { origin: [0.0, 0.0, 0.0], direction: [0.0, 0.0, -1.0] };
    let hit = world.intersect(&ray, s(0.001), s(f32::INFINITY)).unwrap();
    assert!((f(hit.t) - 3.0).abs() <= 1e-4);
    assert_eq!(hit.surface, [0.0, 0.0, -3.0]);
}

#[test]
fn empty_world_shows_its_background() {
    let mut world: World<Solid, Sphere> = World::new(Solid([0.0, 0.0, 0.0]));
    let ray = Ray { origin: [0.0; 3], direction: [0.0, 0.0, -1.0] };
    assert!(world.intersect(&ray, s(0.001), s(f32::INFINITY)).is_none());
    assert_eq!(world.background(&ray), [0.0, 0.0, 0.0]);
    assert_eq!(world.bounding_box(), None);
    world.add(Sphere { center: [0.0, 0.0, -5.0], radius: 1.0, id: 0 });
    assert!(world.intersect(&ray, s(0.001), s(f32::INFINITY)).is_some());
    world.clear();
    assert!(world.intersect(&ray, s(0.001), s(f32::INFINITY)).is_none());
}

#[test]
fn world_box_joins_the_boxes_of_its_things() {
    let mut world: World<Solid, Sphere> = World::new(Solid([0.0; 3]));
    world.add(Sphere { center: [0.0, 0.0, 0.0], radius: 1.0, id: 0 });
    world.add(Sphere { center: [4.0, -2.0, 1.0], radius: 0.5, id: 1 });
    let b = world.bounding_box().unwrap();
    assert_eq!(
        [f(b.minimum.x), f(b.minimum.y), f(b.minimum.z)],
        [-1.0, -2.5, -1.0]
    );
    assert_eq!([f(b.maximum.x), f(b.maximum.y), f(b.maximum.z)], [4.5, 1.0, 1.5]);
    let built = world.build_bvh().ok().unwrap();
    assert_eq!(built.bounding_box(), Some(b));
}

struct Boxless;

impl Intersect for Boxless {
    type Ray = Ray;
    type Surface = [f32; 3];
    type Material = usize;

    fn intersect<'a>(&'a self, _ray: &Ray, _t_min: Scalar, _t_max: Scalar) -> Option<Hit<'a, [f32; 3], usize>> {
        None
    }

    fn bounding_box(&self) -> Option<BoundingBox> {
        None
    }
}

#[test]
fn nothing_is_built_over_a_thing_without_box() {
    assert!(matches!(BvhNode::new(vec![Boxless]), Err(BvhError::MissingBoundingBox)));
    let mut world: World<Solid, Boxless> = World::new(Solid([0.0; 3]));
    world.add(Boxless);
    assert_eq!(world.bounding_box(), None);
    assert!(matches!(world.build_bvh(), Err(BvhError::MissingBoundingBox)));
}

#[test]
fn a_tree_over_no_things_has_no_children_and_is_never_hit() {
    let node = BvhNode::<Sphere>::new(Vec::new()).unwrap();
    assert!(node.left.is_none());
    assert!(node.right.is_none());
    assert_eq!(node.bounding_box.minimum, V3::fill(Scalar::infinity()));
    assert_eq!(node.bounding_box.maximum, V3::fill(Scalar::neg_infinity()));
    let over_nothing = BvhNode::<Sphere>::over(Vec::new(), Vec::new()).unwrap();
    assert!(over_nothing.left.is_none() && over_nothing.right.is_none());

    let world: World<Solid, Sphere> = World::new(Solid([0.0; 3]));
    let built = world.build_bvh().ok().unwrap();
    assert_eq!(built.objects.len(), 1);
    assert_eq!(built.background(&Ray { origin: [0.0; 3], direction: [0.0, 0.0, -1.0] }), [0.0; 3]);
    let mut rng = Lcg(5);
    for _ in 0..50 {
        let ray = Ray {
            origin: [rng.between(-12.0, 12.0), rng.between(-12.0, 12.0), rng.between(-12.0, 12.0)],
            direction: [rng.between(-1.0, 1.0), rng.between(-1.0, 1.0), rng.between(-1.0, 1.0)],
        };
        assert!(built.intersect(&ray, s(0.001), s(f32::INFINITY)).is_none());
        assert!(built.objects[0].walk(&ray, s(0.001), s(f32::INFINITY)).is_none());
    }
}

#[test]
fn a_tree_over_given_boxes_holds_them_and_fails_where_one_is_missing() {
    let mut rng = Lcg(17);
    let spheres = random_spheres(&mut rng, 9);
    let boxes: Vec<Option<BoundingBox>> = spheres.iter().map(|x| x.bounding_box()).collect();
    let node = BvhNode::over(spheres.clone(), boxes.clone()).unwrap();
    let mut expected = boxes[0].unwrap();
    for b in &boxes[1..] {
        expected = expected.join(b.unwrap());
    }
    assert_eq!(node.bounding_box, expected);

    let mut holed = boxes.clone();
    holed[4] = None;
    assert!(matches!(BvhNode::over(spheres, holed), Err(BvhError::MissingBoundingBox)));
}

#[test]
fn sort_orders_things_by_the_minimum_of_their_boxes() {
    let mut rng = Lcg(99);
    let spheres = random_spheres(&mut rng, 200);
    for axis in 0..3u8 {
        let boxed: Vec<Bounded<Sphere>> = spheres
            .iter()
            .cloned()
            .map(|item| Bounded { bounds: item.bounding_box().unwrap(), item })
            .collect();
        let sorted = sort_on_axis(boxed, axis);
        assert_eq!(sorted.len(), 200);
        let key = |b: &Bounded<Sphere>| f(b.bounds.minimum.axis(axis));
        for pair in sorted.windows(2) {
            assert!(key(&pair[0]) <= key(&pair[1]));
        }
        let mut ids: Vec<usize> = sorted.iter().map(|b| b.item.id).collect();
        ids.sort();
        assert_eq!(ids, (0..200).collect::<Vec<_>>());
    }
}

#[test]
fn sort_keeps_the_order_of_things_that_stand_alike() {
    let boxed: Vec<Bounded<Sphere>> = (0..50)
        .map(|id| {
            let item = Sphere { center: [(id % 3) as f32, 0.0, 0.0], radius: 1.0, id };
            Bounded { bounds: item.bounding_box().unwrap(), item }
        })
        .collect();
    let sorted = sort_on_axis(boxed, 0);
    for pair in sorted.windows(2) {
        if pair[0].item.center[0] == pair[1].item.center[0] {
            assert!(pair[0].item.id < pair[1].item.id);
        }
    }
}

fn probe_for<'a>(ray: &'a Ray) -> impl Fn(&'a Sphere, Scalar) -> Option<Hit<'a, [f32; 3], usize>> {
    move |item, limit| item.intersect(ray, s(0.001), limit)
}

#[test]
fn search_with_functions_finds_what_the_scan_finds() {
    let mut rng = Lcg(31);
    let spheres = random_spheres(&mut rng, 150);
    let node = BvhNode::new(spheres.clone()).unwrap();
    for _ in 0..500 {
        let ray = Ray {
            origin: [rng.between(-12.0, 12.0), rng.between(-12.0, 12.0), rng.between(-12.0, 12.0)],
            direction: [rng.between(-1.0, 1.0), rng.between(-1.0, 1.0), rng.between(-1.0, 1.0)],
        };
        let crosses = |bounds: &BoundingBox, limit: Scalar| ray.crosses(bounds, s(0.001), limit);
        let probe = probe_for(&ray);
        let found = node.search(&crosses, &probe, s(f32::INFINITY)).map(|h| h.t);
        let scanned = scan(&spheres, &probe, s(f32::INFINITY)).map(|h| h.t);
        assert_eq!(found, scanned);
        // a box test that always says yes loses nothing either
        let always = |_: &BoundingBox, _: Scalar| true;
        let all = node.search(&always, &probe, s(f32::INFINITY)).map(|h| h.t);
        assert_eq!(all, scanned);
    }
}

#[test]
fn scan_gives_the_last_hit_within_the_moving_limit() {
    let spheres = vec![
        Sphere { center: [0.0, 0.0, -10.0], radius: 1.0, id: 0 },
        Sphere { center: [0.0, 0.0, -5.0], radius: 1.0, id: 1 },
        Sphere { center: [0.0, 0.0, -20.0], radius: 1.0, id: 2 },
        Sphere { center: [5.0, 0.0, -3.0], radius: 1.0, id: 3 },
    ];
    let none: Vec<Sphere> = Vec::new();
    let ray = Ray { origin: [0.0; 3], direction: [0.0, 0.0, -1.0] };
    let probe = probe_for(&ray);
    let hit = scan(&spheres, &probe, s(f32::INFINITY)).unwrap();
    assert_eq!((f(hit.t), *hit.material), (4.0, 1));
    let hit = scan(&spheres, &probe, s(3.0));
    assert!(hit.is_none());
    assert!(scan(&none, &probe, s(f32::INFINITY)).is_none());
}

#[test]
fn a_path_counts_hits_from_a_thousandth_on() {
    assert_eq!(PATH_NEAR_BITS, 0.001f32.to_bits());
    let mut world: World<Solid, Sphere> = World::new(Solid([0.0; 3]));
    world.add(Sphere { center: [0.0, 0.0, -5.0], radius: 1.0, id: 3 });
    world.add(Sphere { center: [0.0, 0.0, -9.0], radius: 1.0, id: 4 });
    let ray = Ray { origin: [0.0; 3], direction: [0.0, 0.0, -1.0] };
    let hit = world.strike(&ray).unwrap();
    assert!((f(hit.t) - 4.0).abs() <= 1e-5);
    assert_eq!(*hit.material, 3);
    let same = world.intersect(&ray, s(0.001), s(f32::INFINITY)).unwrap();
    assert_eq!(f(hit.t), f(same.t));
    // a ray that starts on the near side of a sphere does not hit that side again
    let on_surface = Ray { origin: [0.0, 0.0, -4.0], direction: [0.0, 0.0, 1.0] };
    assert!(world.strike(&on_surface).is_none());
    let away = Ray { origin: [0.0; 3], direction: [0.0, 0.0, 1.0] };
    assert!(world.strike(&away).is_none());
}
