use raytracer::aabb::{Interval, Slab, AABB};
use raytracer::scalar::Scalar;
use raytracer::vec3::Vec3;

fn s(v: f32) -> Scalar {
    Scalar::from_bits(v.to_bits())
}

fn v3(x: f32, y: f32, z: f32) -> Vec3 {
    Vec3::new(s(x), s(y), s(z))
}

fn cube(min: [f32; 3], max: [f32; 3]) -> AABB {
    AABB::new(v3(min[0], min[1], min[2]), v3(max[0], max[1], max[2]))
}

fn slabs(bounds: &AABB, origin: [f32; 3], direction: [f32; 3]) -> [Slab; 3] {
    let mut out = [Slab { inv_dir: s(0.0), at_min: s(0.0), at_max: s(0.0) }; 3];
    for i in 0..3 {
        let inv_dir = 1.0 / direction[i];
        let low = f32::from_bits(bounds.min.index(i).to_bits());
        let high = f32::from_bits(bounds.max.index(i).to_bits());
        out[i] = Slab {
            inv_dir: s(inv_dir),
            at_min: s((low - origin[i]) * inv_dir),
            at_max: s((high - origin[i]) * inv_dir),
        };
    }
    out
}

#[test]
fn new_keeps_both_corners() {
    let b = AABB::new(v3(1.0, 2.0, 3.0), v3(4.0, 5.0, 6.0));
    assert_eq!(b.min, v3(1.0, 2.0, 3.0));
    assert_eq!(b.max, v3(4.0, 5.0, 6.0));
}

#[test]
fn surrounding_box_takes_min_of_mins_and_max_of_maxes() {
    let a = cube([0.0, -1.0, 2.0], [1.0, 1.0, 3.0]);
    let b = cube([-2.0, 0.0, 2.5], [0.5, 4.0, 2.75]);
    let u = AABB::surrounding_box(&a, &b);
    assert_eq!(u, cube([-2.0, -1.0, 2.0], [1.0, 4.0, 3.0]));
    assert_eq!(AABB::surrounding_box(&b, &a), u);
}

#[test]
fn surrounding_box_of_a_box_with_itself_is_the_box() {
    let a = cube([0.0, -1.0, 2.0], [1.0, 1.0, 3.0]);
    assert_eq!(AABB::surrounding_box(&a, &a), a);
}

#[test]
fn surrounding_box_contains_both_boxes() {
    let a = cube([0.0, -1.0, 2.0], [1.0, 1.0, 3.0]);
    let b = cube([-2.0, 0.0, 2.5], [0.5, 4.0, 2.75]);
    let u = AABB::surrounding_box(&a, &b);
    for inner in [a, b] {
        for i in 0..3 {
            assert!(u.min.index(i).le(inner.min.index(i)));
            assert!(inner.max.index(i).le(u.max.index(i)));
        }
    }
}

#[test]
fn ray_through_the_middle_crosses_the_box() {
    let b = cube([-1.0, -1.0, -3.0], [1.0, 1.0, -2.0]);
    let sl = slabs(&b, [0.0, 0.0, 0.0], [0.1, 0.1, -1.0]);
    assert!(AABB::hit(&sl, s(0.0001), s(f32::MAX)));
}

#[test]
fn ray_pointing_away_misses_the_box() {
    let b = cube([-1.0, -1.0, -3.0], [1.0, 1.0, -2.0]);
    let sl = slabs(&b, [0.0, 0.0, 0.0], [0.1, 0.1, 1.0]);
    assert!(!AABB::hit(&sl, s(0.0001), s(f32::MAX)));
}

#[test]
fn ray_running_backwards_on_an_axis_swaps_entry_and_exit() {
    let b = cube([-3.0, -1.0, -1.0], [-2.0, 1.0, 1.0]);
    let sl = slabs(&b, [0.0, 0.0, 0.0], [-1.0, 0.1, 0.1]);
    assert!(sl[0].inv_dir.lt(s(0.0)));
    assert!(AABB::hit(&sl, s(0.0), s(10.0)));
    assert!(!AABB::hit(&sl, s(0.0), s(1.5)));
}

#[test]
fn box_beyond_the_upper_limit_is_missed() {
    let b = cube([-1.0, -1.0, -3.0], [1.0, 1.0, -2.0]);
    let sl = slabs(&b, [0.0, 0.0, 0.0], [0.0, 0.0, -1.0]);
    assert!(AABB::hit(&sl, s(0.0), s(2.5)));
    assert!(!AABB::hit(&sl, s(0.0), s(2.0)));
    assert!(!AABB::hit(&sl, s(3.0), s(9.0)));
}

#[test]
fn axis_aligned_ray_beside_the_box_misses() {
    let b = cube([-1.0, -1.0, -3.0], [1.0, 1.0, -2.0]);
    let sl = slabs(&b, [2.0, 0.0, 0.0], [0.0, 0.0, -1.0]);
    assert!(!AABB::hit(&sl, s(0.0), s(f32::MAX)));
    let inside = slabs(&b, [0.5, 0.5, 0.0], [0.0, 0.0, -1.0]);
    assert!(AABB::hit(&inside, s(0.0), s(f32::MAX)));
}

#[test]
fn the_interval_runs_on_from_axis_to_axis() {
    // Each axis alone overlaps the limits, but x and y never overlap each other.
    let x = Slab { inv_dir: s(1.0), at_min: s(1.0), at_max: s(2.0) };
    let y = Slab { inv_dir: s(1.0), at_min: s(3.0), at_max: s(4.0) };
    let z = Slab { inv_dir: s(1.0), at_min: s(0.0), at_max: s(10.0) };
    assert!(!AABB::hit(&[x, y, z], s(0.0), s(10.0)));
    assert!(AABB::hit(&[x, z, z], s(0.0), s(10.0)));
    assert!(AABB::hit(&[z, y, z], s(0.0), s(10.0)));
}

#[test]
fn an_interval_that_closes_to_a_point_is_empty() {
    let x = Slab { inv_dir: s(1.0), at_min: s(1.0), at_max: s(2.0) };
    let y = Slab { inv_dir: s(1.0), at_min: s(2.0), at_max: s(4.0) };
    let z = Slab { inv_dir: s(1.0), at_min: s(0.0), at_max: s(10.0) };
    assert!(!AABB::hit(&[x, y, z], s(0.0), s(10.0)));
}

#[test]
fn narrow_cuts_the_interval_to_the_slab() {
    let forward = Slab { inv_dir: s(2.0), at_min: s(1.0), at_max: s(5.0) };
    let cut = forward.narrow(Interval { low: s(0.0), high: s(3.0) });
    assert_eq!(cut, Interval { low: s(1.0), high: s(3.0) });
    let backward = Slab { inv_dir: s(-2.0), at_min: s(5.0), at_max: s(1.0) };
    let cut = backward.narrow(Interval { low: s(2.0), high: s(9.0) });
    assert_eq!(cut, Interval { low: s(2.0), high: s(5.0) });
}

#[test]
fn a_box_without_thickness_is_never_crossed() {
    let flat = cube([-1.0, -1.0, -2.0], [1.0, 1.0, -2.0]);
    let sl = slabs(&flat, [0.0, 0.0, 0.0], [0.0, 0.0, -1.0]);
    assert_eq!(sl[2].at_min, sl[2].at_max);
    assert!(!AABB::hit(&sl, s(0.0001), s(f32::MAX)));
}

#[test]
fn a_ray_along_a_face_keeps_the_limits_on_that_axis() {
    // The origin lies in the plane of the smallest corner and the ray does not
    // move on that axis: zero times infinity is no number, and the limit stays.
    let b = cube([0.0, -1.0, -3.0], [1.0, 1.0, -2.0]);
    let sl = slabs(&b, [0.0, 0.0, 0.0], [0.0, 0.0, -1.0]);
    assert!(sl[0].at_min.is_nan());
    assert_eq!(sl[0].at_max, s(f32::INFINITY));
    assert_eq!(
        sl[0].narrow(Interval { low: s(0.5), high: s(9.0) }),
        Interval { low: s(0.5), high: s(9.0) }
    );
    assert!(AABB::hit(&sl, s(0.0001), s(f32::MAX)));
}

#[test]
fn division_by_a_zero_direction_gives_infinite_crossings() {
    let b = cube([-1.0, -1.0, -3.0], [1.0, 1.0, -2.0]);
    let sl = slabs(&b, [0.5, 0.0, 0.0], [0.0, -0.0, -1.0]);
    assert_eq!(sl[0].inv_dir, s(f32::INFINITY));
    assert_eq!(sl[0].at_min, s(f32::NEG_INFINITY));
    assert_eq!(sl[0].at_max, s(f32::INFINITY));
    assert_eq!(sl[1].inv_dir, s(f32::NEG_INFINITY));
    // On the y axis the ray runs backwards: entry and exit change places.
    assert_eq!(sl[1].at_min, s(f32::INFINITY));
    assert_eq!(sl[1].at_max, s(f32::NEG_INFINITY));
    assert!(AABB::hit(&sl, s(0.0001), s(f32::MAX)));
}
