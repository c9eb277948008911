use raytracer::hitable::RayHit;
use raytracer::scalar::Scalar;
use raytracer::shapes::{accept, Crossing, MovingSphere, Roots, Sphere};
use raytracer::vec3::Vec3;

fn s(v: f32) -> Scalar {
    Scalar::from_bits(v.to_bits())
}

fn v3(v: [f32; 3]) -> Vec3 {
    Vec3::new(s(v[0]), s(v[1]), s(v[2]))
}

fn dot(a: [f32; 3], b: [f32; 3]) -> f32 {
    a[0] * b[0] + a[1] * b[1] + a[2] * b[2]
}

fn crossing(centre: [f32; 3], radius: f32, o: [f32; 3], d: [f32; 3], t: f32) -> Crossing {
    let p = [o[0] + d[0] * t, o[1] + d[1] * t, o[2] + d[2] * t];
    let n = [(p[0] - centre[0]) / radius, (p[1] - centre[1]) / radius, (p[2] - centre[2]) / radius];
    Crossing { distance: s(t), point: v3(p), normal: v3(n) }
}

fn solve(centre: [f32; 3], radius: f32, o: [f32; 3], d: [f32; 3]) -> Roots {
    let oc = [o[0] - centre[0], o[1] - centre[1], o[2] - centre[2]];
    let a = dot(d, d);
    let b = dot(oc, d);
    let c = dot(oc, oc) - radius.powi(2);
    let discriminant = b.powi(2) - a * c;
    let near = (-b - discriminant.sqrt()) / a;
    let far = (-b + discriminant.sqrt()) / a;
    Roots {
        discriminant: s(discriminant),
        near: crossing(centre, radius, o, d, near),
        far: crossing(centre, radius, o, d, far),
    }
}

fn plain(distance: f32) -> Crossing {
    Crossing { distance: s(distance), point: v3([0.0, 0.0, distance]), normal: v3([0.0, 0.0, 1.0]) }
}

#[test]
fn sphere_in_front_of_the_origin_is_hit_at_half_a_unit() {
    let centre = [0.0, 0.0, -1.0];
    let sphere = Sphere::new(v3(centre), s(0.5), 0);
    let roots = solve(centre, 0.5, [0.0, 0.0, 0.0], [0.0, 0.0, -1.0]);
    let hit = sphere.hit(&roots, s(0.0001), s(f32::MAX)).unwrap();
    assert_eq!(hit.distance, s(0.5));
    assert_eq!(hit.normal, v3([0.0, 0.0, 1.0]));
    assert_eq!(hit.point, v3([0.0, 0.0, -0.5]));
    assert_eq!(hit.material, 0);
}

#[test]
fn hit_point_lies_on_the_sphere() {
    let centre = [1.0, -2.0, -5.0];
    let radius = 1.5f32;
    let sphere = Sphere::new(v3(centre), s(radius), 3);
    let o = [0.0, 0.0, 0.0];
    let d = [0.2, -0.45, -1.0];
    let hit = sphere.hit(&solve(centre, radius, o, d), s(0.0001), s(f32::MAX)).unwrap();
    let p = [
        f32::from_bits(hit.point.x().to_bits()),
        f32::from_bits(hit.point.y().to_bits()),
        f32::from_bits(hit.point.z().to_bits()),
    ];
    let pc = [p[0] - centre[0], p[1] - centre[1], p[2] - centre[2]];
    assert!((dot(pc, pc).sqrt() - radius).abs() < 1e-4);
    assert_eq!(hit.normal, v3([pc[0] / radius, pc[1] / radius, pc[2] / radius]));
    assert_eq!(hit.material, 3);
}

#[test]
fn ray_beside_the_sphere_hits_nothing() {
    let centre = [0.0, 0.0, -1.0];
    let sphere = Sphere::new(v3(centre), s(0.5), 0);
    let roots = solve(centre, 0.5, [0.0, 0.0, 0.0], [1.0, 0.0, -1.0]);
    assert!(roots.discriminant.lt(s(0.0)));
    assert_eq!(sphere.hit(&roots, s(0.0001), s(f32::MAX)), None);
}

#[test]
fn a_discriminant_of_zero_is_no_hit() {
    let roots = Roots { discriminant: s(0.0), near: plain(1.0), far: plain(1.0) };
    assert_eq!(accept(&roots, s(0.0), s(10.0)), None);
    let roots = Roots { discriminant: s(f32::NAN), near: plain(1.0), far: plain(1.0) };
    assert_eq!(accept(&roots, s(0.0), s(10.0)), None);
}

#[test]
fn nearer_root_wins_when_both_are_inside() {
    let roots = Roots { discriminant: s(1.0), near: plain(2.0), far: plain(4.0) };
    assert_eq!(accept(&roots, s(0.0), s(10.0)), Some(plain(2.0)));
}

#[test]
fn farther_root_is_taken_from_inside_the_sphere() {
    let roots = Roots { discriminant: s(1.0), near: plain(-2.0), far: plain(4.0) };
    assert_eq!(accept(&roots, s(0.0001), s(10.0)), Some(plain(4.0)));
    let centre = [0.0, 0.0, 0.0];
    let sphere = Sphere::new(v3(centre), s(2.0), 1);
    let hit = sphere.hit(&solve(centre, 2.0, [0.0, 0.0, 0.0], [0.0, 1.0, 0.0]), s(0.0001), s(f32::MAX));
    assert_eq!(hit.unwrap().distance, s(2.0));
}

#[test]
fn a_root_exactly_on_a_limit_is_rejected() {
    let roots = Roots { discriminant: s(1.0), near: plain(2.0), far: plain(4.0) };
    assert_eq!(accept(&roots, s(2.0), s(10.0)), Some(plain(4.0)));
    assert_eq!(accept(&roots, s(2.0), s(4.0)), None);
    assert_eq!(accept(&roots, s(0.0), s(2.0)), None);
    assert_eq!(accept(&roots, s(4.0), s(10.0)), None);
}

#[test]
fn lowering_the_upper_limit_keeps_the_hit_or_leaves_none() {
    let roots = Roots { discriminant: s(1.0), near: plain(2.0), far: plain(4.0) };
    assert_eq!(accept(&roots, s(0.0), s(3.0)), Some(plain(2.0)));
    assert_eq!(accept(&roots, s(0.0), s(1.0)), None);
}

#[test]
fn moving_sphere_reports_its_own_material() {
    let ball = MovingSphere::new(v3([0.0, 0.0, -1.0]), v3([0.0, 1.0, -1.0]), s(0.0), s(1.0), s(0.5), 7);
    assert_eq!(ball.centre0, v3([0.0, 0.0, -1.0]));
    assert_eq!(ball.centre1, v3([0.0, 1.0, -1.0]));
    assert_eq!(ball.time0, s(0.0));
    assert_eq!(ball.time1, s(1.0));
    assert_eq!(ball.radius, s(0.5));
    // At the instant 0.5 the centre stands at (0, 0.5, -1).
    let roots = solve([0.0, 0.5, -1.0], 0.5, [0.0, 0.5, 0.0], [0.0, 0.0, -1.0]);
    let hit = ball.hit(&roots, s(0.0001), s(f32::MAX)).unwrap();
    assert_eq!(
        hit,
        RayHit { distance: s(0.5), point: v3([0.0, 0.5, -0.5]), normal: v3([0.0, 0.0, 1.0]), material: 7 }
    );
    assert_eq!(ball.hit(&roots, s(0.5), s(f32::MAX)).unwrap().distance, s(1.5));
    assert_eq!(ball.hit(&roots, s(0.5), s(1.5)), None);
}
