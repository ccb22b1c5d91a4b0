use mass_raytrace::path::{Seen, Tracer};

/// A scene on the number line: a ray is a place, mirrors stand at the even
/// places up to 10, a lamp stands at 11, and beyond lies the background.
fn tracer() -> Tracer<
    impl Fn(u32) -> Option<u32>,
    impl Fn(&u32) -> f32,
    impl Fn(&u32, u32) -> Option<(f32, u32)>,
    impl Fn(u32) -> f32,
    impl Fn(f32, f32, f32) -> f32,
    f32,
> {
    Tracer {
        intersect: |ray: u32| if ray <= 11 { Some(ray) } else { None },
        emit: |hit: &u32| if *hit == 11 { 8.0 } else { 0.25 },
        scatter: |hit: &u32, ray: u32| {
            if *hit % 2 == 0 {
                Some((0.5, ray + 2))
            } else {
                None
            }
        },
        background: |_ray: u32| 100.0,
        combine: |light: f32, kept: f32, emitted: f32| light * kept + emitted,
        black: 0.0,
    }
}

#[test]
fn path_without_depth_is_black() {
    assert_eq!(tracer().trace(0, 0), (0.0, 0));
    assert_eq!(tracer().trace(20, 0), (0.0, 0));
}

#[test]
fn path_that_hits_nothing_sees_the_background() {
    assert_eq!(tracer().trace(20, 50), (100.0, 50));
}

#[test]
fn path_that_ends_at_a_lamp_sees_its_light() {
    assert_eq!(tracer().trace(11, 50), (8.0, 50));
    assert_eq!(tracer().trace(11, 1), (8.0, 1));
}

#[test]
fn path_gathers_light_bounce_by_bounce() {
    // from 8: mirrors at 8 and 10, then the background
    assert_eq!(tracer().trace(8, 50), ((100.0 * 0.5 + 0.25) * 0.5 + 0.25, 48));
    // from 10: one mirror, then the background
    assert_eq!(tracer().trace(10, 50), (100.0 * 0.5 + 0.25, 49));
    // from 10 with one bounce: the mirror, then no depth
    assert_eq!(tracer().trace(10, 1), (0.0 * 0.5 + 0.25, 0));
    // from 0 with three bounces: three mirrors, then no depth
    assert_eq!(tracer().trace(0, 3), (((0.0 * 0.5 + 0.25) * 0.5 + 0.25) * 0.5 + 0.25, 0));
}

#[test]
fn path_leaves_no_more_depth_than_it_was_given() {
    for ray in 0..15 {
        for depth in 0..10 {
            let (_, left) = tracer().trace(ray, depth);
            assert!(left <= depth);
            // the depth used is the number of mirrors on the way
            let mirrors = if ray % 2 == 0 && ray <= 10 { (12 - ray) / 2 } else { 0 };
            assert_eq!(depth - left, mirrors.min(depth));
        }
    }
}

#[test]
fn first_sight_is_a_surface_or_the_background() {
    assert!(matches!(tracer().see(4), Seen::Scattering(kept, 4) if kept == 0.5));
    assert!(matches!(tracer().see(11), Seen::Glowing(light, 11) if light == 8.0));
    assert!(matches!(tracer().see(5), Seen::Glowing(light, 5) if light == 0.25));
    assert!(matches!(tracer().see(12), Seen::Background(light) if light == 100.0));
}
