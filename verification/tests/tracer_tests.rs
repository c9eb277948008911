use raytracer::hitable::RayHit;
use raytracer::hitable_list::{HitableList, Scan};
use raytracer::material::{MaterialHit, Metal};
use raytracer::ray::Ray;
use raytracer::scalar::Scalar;
use raytracer::tracer::{Trace, DEPTH_LIMIT};
use raytracer::vec3::Vec3;

fn s(v: f32) -> Scalar {
    Scalar::from_bits(v.to_bits())
}

fn v3(x: f32, y: f32, z: f32) -> Vec3 {
    Vec3::new(s(x), s(y), s(z))
}

fn camera_ray() -> Ray {
    Ray::new(v3(0.0, 0.0, 0.0), v3(0.0, 0.6, -0.8), s(1.5))
}

fn wall(distance: f32) -> RayHit {
    RayHit { distance: s(distance), point: v3(0.0, 0.0, -distance), normal: v3(0.0, 0.0, 1.0), material: 0 }
}

fn sky(direction: &Vec3) -> [f32; 3] {
    let d = [
        f32::from_bits(direction.x().to_bits()),
        f32::from_bits(direction.y().to_bits()),
        f32::from_bits(direction.z().to_bits()),
    ];
    let len = (d[0] * d[0] + d[1] * d[1] + d[2] * d[2]).sqrt();
    let t = 0.5 * (d[1] / len + 1.0);
    [(1.0 - t) + t * 0.5, (1.0 - t) + t * 0.7, (1.0 - t) + t * 1.0]
}

#[test]
fn search_limits_are_a_ten_thousandth_and_infinity() {
    let (t_min, t_max) = Trace::limits();
    assert_eq!(t_min, s(0.0001));
    assert_eq!(t_max, s(f32::INFINITY));
    assert_eq!(DEPTH_LIMIT, 50);
}

#[test]
fn ray_that_misses_everything_sees_the_sky_in_its_direction() {
    let trace = Trace::start(camera_ray());
    assert_eq!(trace, Trace::Cast { ray: camera_ray(), depth: 0 });
    let end = trace.on_hit(None);
    assert_eq!(end, Trace::Sky { direction: v3(0.0, 0.6, -0.8) });
    assert!(end.is_finished());
    if let Trace::Sky { direction } = end {
        let colour = sky(&direction);
        assert!((colour[0] - 0.6).abs() < 1e-6);
        assert!((colour[1] - 0.76).abs() < 1e-6);
        assert!((colour[2] - 1.0).abs() < 1e-6);
    }
    for depth in [0, 1, 49, 50, 51] {
        assert_eq!(
            (Trace::Cast { ray: camera_ray(), depth }).on_hit(None),
            Trace::Sky { direction: v3(0.0, 0.6, -0.8) }
        );
    }
}

#[test]
fn empty_scene_shows_the_sky_and_asks_no_material() {
    let list = HitableList::new(&Vec::new());
    let (_, t_max) = Trace::limits();
    for direction in [v3(0.0, 1.0, 0.0), v3(1.0, -1.0, 0.5), v3(0.0, 0.0, -1.0)] {
        let ray = Ray::new(v3(0.0, 0.0, 0.0), direction, s(0.0));
        let mut trace = Trace::start(ray);
        let mut asked = 0;
        while !trace.is_finished() {
            trace = match trace {
                Trace::Cast { .. } => {
                    let scan = Scan::begin(t_max);
                    assert!(list.hit_done(&scan));
                    trace.on_hit(scan.best)
                }
                _ => {
                    asked += 1;
                    trace.on_scatter(None)
                }
            };
        }
        assert_eq!(trace, Trace::Sky { direction });
        assert_eq!(asked, 0);
    }
}

#[test]
fn hit_below_the_depth_limit_asks_the_material() {
    let trace = Trace::start(camera_ray()).on_hit(Some(wall(2.0)));
    assert_eq!(trace, Trace::Scatter { ray: camera_ray(), hit: wall(2.0), depth: 0 });
    assert!(!trace.is_finished());
    let at_49 = (Trace::Cast { ray: camera_ray(), depth: 49 }).on_hit(Some(wall(2.0)));
    assert_eq!(at_49, Trace::Scatter { ray: camera_ray(), hit: wall(2.0), depth: 49 });
}

#[test]
fn hit_at_the_depth_limit_ends_black() {
    assert_eq!((Trace::Cast { ray: camera_ray(), depth: 50 }).on_hit(Some(wall(2.0))), Trace::Black);
    assert_eq!((Trace::Cast { ray: camera_ray(), depth: 51 }).on_hit(Some(wall(2.0))), Trace::Black);
    assert!(Trace::Black.is_finished());
}

#[test]
fn swallowed_ray_ends_black() {
    let trace = Trace::start(camera_ray()).on_hit(Some(wall(2.0)));
    assert_eq!(trace.on_scatter(None), Trace::Black);
}

#[test]
fn scattered_ray_is_cast_one_bounce_deeper() {
    let onward = Ray::new(v3(0.0, 0.0, -2.0), v3(0.0, 0.6, 0.8), s(1.5));
    let outcome = MaterialHit { attenuation: v3(0.5, 0.5, 0.5), scatter_ray: onward };
    let trace = Trace::start(camera_ray()).on_hit(Some(wall(2.0))).on_scatter(Some(outcome));
    assert_eq!(trace, Trace::Cast { ray: onward, depth: 1 });
}

#[test]
fn reports_out_of_turn_change_nothing() {
    let cast = Trace::start(camera_ray());
    assert_eq!(cast.on_scatter(None), cast);
    let scatter = cast.on_hit(Some(wall(2.0)));
    assert_eq!(scatter.on_hit(None), scatter);
    assert_eq!(Trace::Black.on_hit(Some(wall(1.0))), Trace::Black);
    let sky = Trace::Sky { direction: v3(0.0, 1.0, 0.0) };
    assert_eq!(sky.on_scatter(None), sky);
}

#[test]
fn mirror_cavity_ends_black_after_fifty_bounces() {
    // A perfect mirror all around: every ray hits, and every hit scatters.
    let mirror = Metal::new(v3(1.0, 1.0, 1.0), s(0.0));
    let mut trace = Trace::start(camera_ray());
    let mut bounces = 0;
    let mut steps = 0;
    while !trace.is_finished() {
        steps += 1;
        assert!(steps <= 101);
        trace = match trace {
            Trace::Cast { ray, .. } => {
                let hit = RayHit { distance: s(1.0), point: ray.origin, normal: ray.direction.neg(), material: 0 };
                trace.on_hit(Some(hit))
            }
            Trace::Scatter { ray, hit, .. } => {
                let scattered = mirror.scatter(&ray, &hit, ray.direction.neg(), s(1.0));
                assert!(scattered.is_some());
                bounces += 1;
                trace.on_scatter(scattered)
            }
            _ => trace,
        };
    }
    assert_eq!(trace, Trace::Black);
    assert_eq!(bounces, 50);
    assert_eq!(steps, 101);
}
