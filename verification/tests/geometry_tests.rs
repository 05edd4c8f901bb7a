use raytracer::geometry::{HitRecord, Interval, Ray, Vec3, EPSILON_BITS, NEAR_ZERO_BITS};
use raytracer::material::{Lambertian, MaterialObject};
use raytracer::scalar::Scalar;

fn s(x: f64) -> Scalar {
    Scalar::from_bits(x.to_bits())
}

fn v(x: f64, y: f64, z: f64) -> Vec3 {
    Vec3::new(s(x), s(y), s(z))
}

fn f(x: Scalar) -> f64 {
    f64::from_bits(x.bits)
}

fn same(a: Vec3, b: Vec3) -> bool {
    a.x.bits == b.x.bits && a.y.bits == b.y.bits && a.z.bits == b.z.bits
}

fn matte() -> MaterialObject {
    MaterialObject::LambertianObject(Lambertian { albedo: v(0.1, 0.2, 0.5) })
}

#[test]
fn patterns_of_the_thresholds() {
    assert_eq!(NEAR_ZERO_BITS, 1e-8f64.to_bits());
    assert_eq!(EPSILON_BITS, f64::EPSILON.to_bits());
}

#[test]
fn contains_takes_both_bounds() {
    let i = Interval { min: s(-2.0), max: s(3.5) };
    assert!(i.contains(s(-2.0)));
    assert!(i.contains(s(3.5)));
    assert!(i.contains(s(0.0)));
    assert!(!i.contains(s(-2.0000001)));
    assert!(!i.contains(s(3.5000001)));
    assert!(!i.contains(s(f64::NAN)));
}

#[test]
fn surrounds_leaves_both_bounds_out() {
    let i = Interval { min: s(-2.0), max: s(3.5) };
    assert!(!i.surrounds(s(-2.0)));
    assert!(!i.surrounds(s(3.5)));
    assert!(i.surrounds(s(-1.9999999)));
    assert!(i.surrounds(s(3.4999999)));
    assert!(!i.surrounds(s(4.0)));
    assert!(!i.surrounds(s(f64::NAN)));
}

#[test]
fn clamp_brings_to_the_nearer_bound() {
    let i = Interval { min: s(0.0), max: s(1.0) };
    assert_eq!(f(i.clamp(s(-0.25))), 0.0);
    assert_eq!(f(i.clamp(s(1.75))), 1.0);
    assert_eq!(f(i.clamp(s(0.0))), 0.0);
    assert_eq!(f(i.clamp(s(1.0))), 1.0);
    assert_eq!(f(i.clamp(s(0.3))), 0.3);
    assert_eq!(f(i.clamp(s(f64::INFINITY))), 1.0);
    assert_eq!(f(i.clamp(s(f64::NEG_INFINITY))), 0.0);
}

#[test]
fn clamp_lands_in_the_interval() {
    let i = Interval { min: s(-1.5), max: s(2.25) };
    let mut x = -10.0f64;
    while x < 10.0 {
        let r = i.clamp(s(x));
        assert!(i.contains(r), "{x}");
        assert_eq!(f(r), x.max(-1.5).min(2.25));
        x += 0.173;
    }
}

#[test]
fn clamp_passes_what_is_not_a_number() {
    let i = Interval { min: s(0.0), max: s(1.0) };
    let r = i.clamp(s(f64::NAN));
    assert!(r.is_not_a_number());
    assert!(!i.contains(r));
}

#[test]
fn clamp_of_an_empty_interval_leaves_it() {
    let i = Interval { min: s(2.0), max: s(1.0) };
    assert_eq!(f(i.clamp(s(0.0))), 2.0);
    assert_eq!(f(i.clamp(s(3.0))), 1.0);
    assert!(!i.contains(i.clamp(s(0.0))));
    assert!(!i.contains(i.clamp(s(3.0))));
}

#[test]
fn neg_flips_every_component() {
    let n = v(1.0, -2.0, 0.0).neg();
    assert!(same(n, v(-1.0, 2.0, -0.0)));
}

#[test]
fn near_zero_wants_every_component_small() {
    assert!(v(0.0, 0.0, 0.0).near_zero());
    assert!(v(9.9e-9, -9.9e-9, 1e-300).near_zero());
    assert!(!v(1e-8, 0.0, 0.0).near_zero());
    assert!(!v(0.0, -1e-8, 0.0).near_zero());
    assert!(!v(0.0, 0.0, 2e-8).near_zero());
    assert!(!v(f64::NAN, 0.0, 0.0).near_zero());
}

#[test]
fn keeps_a_draw_inside_the_unit_ball() {
    assert!(Vec3::keeps(s(0.5)));
    assert!(Vec3::keeps(s(1.0)));
    assert!(!Vec3::keeps(s(1.0000000000000002)));
    assert!(!Vec3::keeps(s(f64::EPSILON)));
    assert!(Vec3::keeps(s(f64::EPSILON * 1.5)));
    assert!(!Vec3::keeps(s(0.0)));
    assert!(!Vec3::keeps(s(f64::NAN)));
}

#[test]
fn on_hemisphere_turns_toward_the_normal() {
    let d = v(0.6, 0.0, 0.8);
    assert!(same(d.on_hemisphere(s(0.3)), d));
    assert!(same(d.on_hemisphere(s(-0.3)), v(-0.6, -0.0, -0.8)));
    assert!(same(d.on_hemisphere(s(0.0)), v(-0.6, -0.0, -0.8)));
}

#[test]
fn hit_record_from_outside() {
    let m = matte();
    let rec = HitRecord::new(v(0.0, 0.0, -0.5), s(0.5), v(0.0, 0.0, 1.0), s(-1.0), &m);
    assert!(rec.front_face);
    assert!(same(rec.normal, v(0.0, 0.0, 1.0)));
    assert!(same(rec.point, v(0.0, 0.0, -0.5)));
    assert_eq!(f(rec.t), 0.5);
}

#[test]
fn hit_record_from_inside() {
    let m = matte();
    let rec = HitRecord::new(v(0.0, 0.0, -1.5), s(1.5), v(0.0, 0.0, -1.0), s(1.0), &m);
    assert!(!rec.front_face);
    assert!(same(rec.normal, v(-0.0, -0.0, 1.0)));
    assert_eq!(f(rec.normal.z), 1.0);
}

#[test]
fn hit_record_of_a_grazing_ray_counts_as_inside() {
    let m = matte();
    let rec = HitRecord::new(v(1.0, 0.0, 0.0), s(1.0), v(0.0, 1.0, 0.0), s(0.0), &m);
    assert!(!rec.front_face);
    assert!(same(rec.normal, v(-0.0, -1.0, -0.0)));
}

#[test]
fn ray_holds_origin_and_direction() {
    let r = Ray { origin: v(1.0, 2.0, 3.0), direction: v(0.0, 0.0, -1.0) };
    assert!(same(r.origin, v(1.0, 2.0, 3.0)));
    assert!(same(r.direction, v(0.0, 0.0, -1.0)));
}
