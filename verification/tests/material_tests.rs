use raytracer::hitable::RayHit;
use raytracer::material::{Bend, Dielectric, Diffuse, Interface, MaterialHit, Metal, Side};
use raytracer::ray::Ray;
use raytracer::scalar::Scalar;
use raytracer::vec3::Vec3;

fn s(v: f32) -> Scalar {
    Scalar::from_bits(v.to_bits())
}

fn v3(x: f32, y: f32, z: f32) -> Vec3 {
    Vec3::new(s(x), s(y), s(z))
}

fn incoming() -> Ray {
    Ray::new(v3(0.0, 0.0, 0.0), v3(1.0, -1.0, 0.0), s(1.25))
}

fn surface() -> RayHit {
    RayHit { distance: s(2.0), point: v3(2.0, -2.0, 0.0), normal: v3(0.0, 1.0, 0.0), material: 0 }
}

fn reflect(v: [f32; 3], n: [f32; 3]) -> [f32; 3] {
    let d = v[0] * n[0] + v[1] * n[1] + v[2] * n[2];
    [v[0] - 2.0 * d * n[0], v[1] - 2.0 * d * n[1], v[2] - 2.0 * d * n[2]]
}

#[test]
fn diffuse_always_scatters_from_the_hit_point_with_its_albedo() {
    let matt = Diffuse::new(v3(0.8, 0.3, 0.3));
    let target = v3(0.25, 1.5, -0.125);
    let out = matt.scatter(&incoming(), &surface(), target).unwrap();
    assert_eq!(out.attenuation, v3(0.8, 0.3, 0.3));
    assert_eq!(out.scatter_ray, Ray::new(v3(2.0, -2.0, 0.0), target, s(1.25)));
}

#[test]
fn metal_limits_its_fuzz_to_between_zero_and_one() {
    assert_eq!(Metal::new(v3(0.7, 0.6, 0.5), s(0.3)).fuzz, s(0.3));
    assert_eq!(Metal::new(v3(0.7, 0.6, 0.5), s(3.0)).fuzz, s(1.0));
    assert_eq!(Metal::new(v3(0.7, 0.6, 0.5), s(-3.0)).fuzz, s(0.0));
    assert_eq!(Metal::new(v3(0.7, 0.6, 0.5), s(0.0)).fuzz, s(0.0));
    assert_eq!(Metal::new(v3(0.7, 0.6, 0.5), s(1.0)).albedo, v3(0.7, 0.6, 0.5));
}

#[test]
fn metal_without_fuzz_sends_the_ray_on_in_the_mirror_direction() {
    let metal = Metal::new(v3(0.7, 0.6, 0.5), s(0.0));
    let inv = 1.0 / 2.0f32.sqrt();
    let unit = [inv, -inv, 0.0];
    let mirrored = reflect(unit, [0.0, 1.0, 0.0]);
    let fuzz = f32::from_bits(metal.fuzz.to_bits());
    for jitter in [[0.3f32, -0.2, 0.1], [-0.9, 0.0, 0.4], [0.0, 0.0, 0.0]] {
        let direction = [
            mirrored[0] + fuzz * jitter[0],
            mirrored[1] + fuzz * jitter[1],
            mirrored[2] + fuzz * jitter[2],
        ];
        let facing = direction[1];
        let out = metal
            .scatter(&incoming(), &surface(), v3(direction[0], direction[1], direction[2]), s(facing))
            .unwrap();
        assert_eq!(out.scatter_ray.direction, v3(inv, inv, 0.0));
        assert_eq!(out.scatter_ray.origin, v3(2.0, -2.0, 0.0));
        assert_eq!(out.scatter_ray.time, s(1.25));
        assert_eq!(out.attenuation, v3(0.7, 0.6, 0.5));
    }
}

#[test]
fn metal_swallows_a_ray_that_would_go_into_the_surface() {
    let metal = Metal::new(v3(0.7, 0.6, 0.5), s(1.0));
    assert_eq!(metal.scatter(&incoming(), &surface(), v3(0.5, -0.1, 0.0), s(-0.1)), None);
    assert_eq!(metal.scatter(&incoming(), &surface(), v3(0.5, 0.0, 0.0), s(0.0)), None);
    assert_eq!(metal.scatter(&incoming(), &surface(), v3(0.5, 0.0, 0.0), s(f32::NAN)), None);
    assert!(metal.scatter(&incoming(), &surface(), v3(0.5, 0.1, 0.0), s(0.1)).is_some());
}

#[test]
fn dielectric_turns_the_normal_against_the_ray() {
    let glass = Dielectric::new(s(1.5));
    assert_eq!(glass.refractive_index, s(1.5));
    let hit = surface();
    let along = Side { ni_over_nt: s(1.5), cosine: s(0.9) };
    let against = Side { ni_over_nt: s(1.0 / 1.5), cosine: s(0.6) };
    let leaving = Dielectric::interface(&hit, s(0.7), along, against);
    assert_eq!(leaving, Interface { outward_normal: v3(-0.0, -1.0, -0.0), ni_over_nt: s(1.5), cosine: s(0.9) });
    let entering = Dielectric::interface(&hit, s(-0.7), along, against);
    assert_eq!(
        entering,
        Interface { outward_normal: v3(0.0, 1.0, 0.0), ni_over_nt: s(1.0 / 1.5), cosine: s(0.6) }
    );
    let grazing = Dielectric::interface(&hit, s(0.0), along, against);
    assert_eq!(grazing, entering);
}

#[test]
fn dielectric_beyond_the_critical_angle_always_reflects() {
    let glass = Dielectric::new(s(1.5));
    let bend = Bend {
        reflected: v3(1.0, 1.0, 0.0),
        discriminant: s(-0.4),
        refracted: v3(9.0, 9.0, 9.0),
        reflectance: s(0.04),
    };
    assert_eq!(bend.refract(), None);
    for sample in [0.0f32, 0.03, 0.04, 0.5, 0.999_999_94] {
        let out = glass.scatter(&incoming(), &surface(), &bend, s(sample)).unwrap();
        assert_eq!(out.scatter_ray.direction, v3(1.0, 1.0, 0.0));
        assert_eq!(out.attenuation, v3(1.0, 1.0, 1.0));
    }
    let edge = Bend { discriminant: s(0.0), ..bend };
    assert_eq!(edge.refract(), None);
    let out = glass.scatter(&incoming(), &surface(), &edge, s(0.9)).unwrap();
    assert_eq!(out.scatter_ray.direction, v3(1.0, 1.0, 0.0));
}

#[test]
fn dielectric_reflects_below_the_reflectance_and_refracts_from_it_on() {
    let glass = Dielectric::new(s(1.5));
    let bend = Bend {
        reflected: v3(1.0, 1.0, 0.0),
        discriminant: s(0.6),
        refracted: v3(0.5, -1.0, 0.0),
        reflectance: s(0.04),
    };
    assert_eq!(bend.refract(), Some(v3(0.5, -1.0, 0.0)));
    let mirrored = glass.scatter(&incoming(), &surface(), &bend, s(0.039)).unwrap();
    assert_eq!(
        mirrored,
        MaterialHit {
            attenuation: v3(1.0, 1.0, 1.0),
            scatter_ray: Ray::new(v3(2.0, -2.0, 0.0), v3(1.0, 1.0, 0.0), s(1.25)),
        }
    );
    let bent = glass.scatter(&incoming(), &surface(), &bend, s(0.04)).unwrap();
    assert_eq!(bent.scatter_ray, Ray::new(v3(2.0, -2.0, 0.0), v3(0.5, -1.0, 0.0), s(1.25)));
    let bent = glass.scatter(&incoming(), &surface(), &bend, s(0.9)).unwrap();
    assert_eq!(bent.scatter_ray.direction, v3(0.5, -1.0, 0.0));
}

#[test]
fn point_in_unit_sphere_is_kept_only_under_a_squared_length_of_one() {
    let p = v3(0.5, -0.5, 0.5);
    assert_eq!(Vec3::get_point_in_unit_sphere(p, s(0.75)), Some(p));
    assert_eq!(Vec3::get_point_in_unit_sphere(p, s(0.0)), Some(p));
    assert_eq!(Vec3::get_point_in_unit_sphere(p, s(0.999_999_94)), Some(p));
    assert_eq!(Vec3::get_point_in_unit_sphere(p, s(1.0)), None);
    assert_eq!(Vec3::get_point_in_unit_sphere(p, s(300.0)), None);
    let mut seed: u32 = 99;
    let mut next = move || {
        seed = seed.wrapping_mul(1664525).wrapping_add(1013904223);
        2.0 * ((seed >> 8) as f32 / 16777216.0) - 1.0
    };
    for _ in 0..1000 {
        let c = [next(), next(), next()];
        let len_sq = c[0].powi(2) + c[1].powi(2) + c[2].powi(2);
        let kept = Vec3::get_point_in_unit_sphere(v3(c[0], c[1], c[2]), s(len_sq));
        assert_eq!(kept.is_some(), !(len_sq >= 1.0));
    }
}

#[test]
fn vec3_reads_back_its_components() {
    let v = v3(1.0, 2.0, 3.0);
    assert_eq!((v.x(), v.y(), v.z()), (s(1.0), s(2.0), s(3.0)));
    assert_eq!((v.r(), v.g(), v.b()), (s(1.0), s(2.0), s(3.0)));
    assert_eq!((v.index(0), v.index(1), v.index(2)), (s(1.0), s(2.0), s(3.0)));
    assert_eq!(v.neg(), v3(-1.0, -2.0, -3.0));
}
