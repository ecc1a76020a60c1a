use raytracer::hittable::HitRecord;
use raytracer::material::{Dielectric, Lambertian, Metal, ScatterRecord};
use raytracer::ray::{Outcome, Radiance, Ray, Step};
use raytracer::scalar::Scalar;
use raytracer::texture::{Checker, NoiseTexture, SolidColor, Texture};
use raytracer::vec3::Vec3;

fn s(x: f64) -> Scalar {
    Scalar::from_bits(x.to_bits())
}

fn f(x: Scalar) -> f64 {
    f64::from_bits(x.to_bits())
}

fn v(a: [f64; 3]) -> Vec3 {
    Vec3::new(s(a[0]), s(a[1]), s(a[2]))
}

fn dot(a: [f64; 3], b: [f64; 3]) -> f64 {
    a[0] * b[0] + a[1] * b[1] + a[2] * b[2]
}

fn reflect(a: [f64; 3], n: [f64; 3]) -> [f64; 3] {
    let d = dot(a, n);
    [a[0] - n[0] * d * 2.0, a[1] - n[1] * d * 2.0, a[2] - n[2] * d * 2.0]
}

fn reflectance(cos: f64, ref_idx: f64) -> f64 {
    let mut r0 = (1.0 - ref_idx) / (1.0 + ref_idx);
    r0 = r0 * r0;
    r0 + (1.0 - r0) * (1.0 - cos).powi(5)
}

fn record(p: [f64; 3], normal: [f64; 3], front_face: bool) -> HitRecord {
    HitRecord { p: v(p), normal: v(normal), t: s(1.0), front_face, mat_ptr: 0, u: s(0.0), v: s(0.0) }
}

#[test]
fn metal_without_fuzz_mirrors_the_ray() {
    let metal = Metal { albedo: v([0.8, 0.6, 0.2]), fuzz: s(0.0) };
    let normal = [0.0, 0.0, 1.0];
    let incoming = [0.0, 0.0, -1.0];
    let r_in = Ray::new(v([0.0, 0.0, 2.0]), v(incoming), s(0.5));
    let rec = record([0.0, 0.0, 0.0], normal, true);
    let mirrored = reflect(incoming, normal);
    assert_eq!(mirrored, [0.0, 0.0, 1.0]);
    let out = metal.scatter(&r_in, &rec, v(mirrored), s(dot(mirrored, normal))).unwrap();
    assert_eq!(out.scattered.dir, v([0.0, 0.0, 1.0]));
    assert_eq!(out.scattered.orig, v([0.0, 0.0, 0.0]));
    assert_eq!(f(out.scattered.time), 0.5);
    assert_eq!(out.attenuation, v([0.8, 0.6, 0.2]));
}

#[test]
fn metal_absorbs_what_dips_below_the_surface() {
    let metal = Metal { albedo: v([0.8, 0.6, 0.2]), fuzz: s(0.5) };
    let r_in = Ray::new(v([0.0, 0.0, 2.0]), v([1.0, 0.0, -0.1]), s(0.0));
    let rec = record([0.0, 0.0, 0.0], [0.0, 0.0, 1.0], true);
    assert_eq!(metal.scatter(&r_in, &rec, v([1.0, 0.0, -0.2]), s(-0.2)), None);
    assert_eq!(metal.scatter(&r_in, &rec, v([1.0, 0.0, 0.0]), s(0.0)), None);
    assert_eq!(metal.scatter(&r_in, &rec, v([1.0, 0.0, 0.0]), s(f64::NAN)), None);
    assert!(metal.scatter(&r_in, &rec, v([1.0, 0.0, 0.2]), s(0.2)).is_some());
}

#[test]
fn lambertian_always_scatters_with_the_texture_colour() {
    let diffuse = Lambertian { albedo: 4 };
    let r_in = Ray::new(v([0.0, 0.0, 0.0]), v([0.0, 0.0, -1.0]), s(0.25));
    let rec = record([0.0, 0.0, -0.5], [0.0, 0.0, 1.0], true);
    let out = diffuse.scatter(&r_in, &rec, v([0.3, 0.1, 1.2]), v([0.5, 0.5, 0.5]));
    assert_eq!(
        out,
        Some(ScatterRecord {
            attenuation: v([0.5, 0.5, 0.5]),
            scattered: Ray::new(v([0.0, 0.0, -0.5]), v([0.3, 0.1, 1.2]), s(0.25)),
        })
    );
}

#[test]
fn glass_refracts_at_normal_incidence_when_the_draw_is_above_the_reflectance() {
    let glass = Dielectric { ref_idx: s(1.5) };
    let unit_direction = [0.0, 0.0, -1.0];
    let normal = [0.0, 0.0, 1.0];
    let ratio = f(glass.refraction_ratio(true, s(1.0 / 1.5)));
    assert_eq!(ratio, 1.0 / 1.5);
    let reversed = [-unit_direction[0], -unit_direction[1], -unit_direction[2]];
    let cos = f(Dielectric::cos_theta(s(dot(reversed, normal))));
    assert_eq!(cos, 1.0);
    let sin = (1.0 - cos * cos).sqrt();
    let chance = reflectance(cos, ratio);
    assert!((chance - 0.04).abs() < 1.0e-12);
    assert!(!Dielectric::reflects(s(ratio * sin), s(chance), s(0.5)));
    assert!(!Dielectric::reflects(s(ratio * sin), s(chance), s(chance)));
    assert!(Dielectric::reflects(s(ratio * sin), s(chance), s(0.01)));
    let r_in = Ray::new(v([0.0, 0.0, 1.0]), v(unit_direction), s(0.75));
    let rec = record([0.0, 0.0, 0.0], normal, true);
    let out = glass.scatter(&r_in, &rec, v([0.0, 0.0, -1.0])).unwrap();
    assert_eq!(out.attenuation, v([1.0, 1.0, 1.0]));
    assert_eq!(out.scattered, Ray::new(v([0.0, 0.0, 0.0]), v([0.0, 0.0, -1.0]), s(0.75)));
}

#[test]
fn glass_reflects_when_it_cannot_refract() {
    let glass = Dielectric { ref_idx: s(1.5) };
    assert_eq!(f(glass.refraction_ratio(false, s(1.0 / 1.5))), 1.5);
    let cos = 0.2f64;
    let sin = (1.0 - cos * cos).sqrt();
    assert!(1.5 * sin > 1.0);
    assert!(Dielectric::reflects(s(1.5 * sin), s(0.0), s(0.99)));
    assert!(!Dielectric::reflects(s(1.0), s(0.3), s(0.99)));
    assert!(!Dielectric::reflects(s(f64::NAN), s(f64::NAN), s(0.5)));
}

#[test]
fn cosine_is_capped_at_one() {
    assert_eq!(f(Dielectric::cos_theta(s(0.3))), 0.3);
    assert_eq!(f(Dielectric::cos_theta(s(1.0000000000000002))), 1.0);
    assert_eq!(f(Dielectric::cos_theta(s(-0.3))), -0.3);
    assert_eq!(f(Dielectric::cos_theta(s(f64::NAN))), 1.0);
}

#[test]
fn no_depth_left_is_black_without_a_trace() {
    assert_eq!(Ray::ray_color(0), Step::Done(Radiance::Black));
    assert_eq!(Ray::ray_color(-3), Step::Done(Radiance::Black));
    assert_eq!(Ray::ray_color(i32::MIN), Step::Done(Radiance::Black));
}

#[test]
fn a_trace_runs_from_the_shadow_guard_to_infinity() {
    assert_eq!(Ray::ray_color(50), Step::Trace { t_min: s(0.001), t_max: s(f64::INFINITY), depth: 50 });
    assert_eq!(Ray::ray_color(1), Step::Trace { t_min: s(0.001), t_max: s(f64::INFINITY), depth: 1 });
}

#[test]
fn outcomes_end_or_continue_the_path() {
    assert_eq!(Ray::scattered(50, Outcome::Miss), Step::Done(Radiance::Sky));
    assert_eq!(Ray::scattered(50, Outcome::Absorbed), Step::Done(Radiance::Black));
    assert_eq!(
        Ray::scattered(50, Outcome::Scattered),
        Step::Trace { t_min: s(0.001), t_max: s(f64::INFINITY), depth: 49 }
    );
    assert_eq!(Ray::scattered(1, Outcome::Scattered), Step::Done(Radiance::Black));
}

#[test]
fn a_path_that_always_scatters_traces_as_many_rays_as_it_has_depth() {
    let mut step = Ray::ray_color(7);
    let mut traces = 0;
    loop {
        match step {
            Step::Done(end) => {
                assert_eq!(end, Radiance::Black);
                break;
            }
            Step::Trace { depth, .. } => {
                traces += 1;
                step = Ray::scattered(depth, Outcome::Scattered);
            }
        }
    }
    assert_eq!(traces, 7);
}

#[test]
fn ray_keeps_what_it_was_made_of() {
    let r = Ray::new(v([1.0, 2.0, 3.0]), v([4.0, 5.0, 6.0]), s(0.5));
    assert_eq!(r.orig, v([1.0, 2.0, 3.0]));
    assert_eq!(r.dir, v([4.0, 5.0, 6.0]));
    assert_eq!(f(r.time), 0.5);
}

fn solid(r: f64, g: f64, b: f64) -> Texture {
    Texture::Solid(SolidColor::new(s(r), s(g), s(b)))
}

fn color_of(t: &Texture) -> Option<Vec3> {
    match t {
        Texture::Solid(c) => Some(c.get_color_value()),
        _ => None,
    }
}

#[test]
fn solid_colour_is_its_colour() {
    let c = SolidColor::new(s(0.2), s(0.3), s(0.1));
    assert_eq!(c.get_color_value(), v([0.2, 0.3, 0.1]));
}

#[test]
fn checker_picks_odd_where_the_sines_are_negative() {
    let checker = Checker { odd: Box::new(solid(0.2, 0.3, 0.1)), even: Box::new(solid(0.9, 0.9, 0.9)) };
    let p = [0.1f64, 0.2, 0.3];
    let sines = (10.0 * p[0]).sin() * (10.0 * p[1]).sin() * (10.0 * p[2]).sin();
    assert!(sines > 0.0);
    assert_eq!(color_of(checker.get_color_value(s(sines))), Some(v([0.9, 0.9, 0.9])));
    assert_eq!(color_of(checker.get_color_value(s(-sines))), Some(v([0.2, 0.3, 0.1])));
    assert_eq!(color_of(checker.get_color_value(s(0.0))), Some(v([0.9, 0.9, 0.9])));
    assert_eq!(color_of(checker.get_color_value(s(-0.0))), Some(v([0.9, 0.9, 0.9])));
    assert_eq!(color_of(checker.get_color_value(s(f64::NAN))), Some(v([0.9, 0.9, 0.9])));
}

#[test]
fn nested_checkers_descend_by_the_same_sign() {
    let inner = Texture::Checkered(Checker { odd: Box::new(solid(1.0, 0.0, 0.0)), even: Box::new(solid(0.0, 1.0, 0.0)) });
    let marble = Texture::Noise(NoiseTexture { noise: 0, scale: s(4.0) });
    let outer = Texture::Checkered(Checker { odd: Box::new(inner), even: Box::new(marble) });
    assert_eq!(color_of(outer.leaf(s(-0.5))), Some(v([1.0, 0.0, 0.0])));
    match outer.leaf(s(0.5)) {
        Texture::Noise(n) => assert_eq!((n.noise, f(n.scale)), (0, 4.0)),
        _ => panic!("the even field is the marble"),
    }
    let plain = solid(0.4, 0.2, 0.1);
    assert_eq!(color_of(plain.leaf(s(-0.5))), Some(v([0.4, 0.2, 0.1])));
}
