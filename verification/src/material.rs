//! How a surface sends a ray on.
//!
//! A material decides from what the arithmetic of one bounce has produced:
//! whether the ray goes on, in which of the directions worked out for it, and
//! how much of its light is kept.

use vstd::prelude::*;
use crate::geometry::{HitRecord, Ray, Vec3};
use crate::scalar::{Scalar, ONE_BITS};

verus! {

/// A mirror, blurred by `fuzz`.
#[derive(Clone, Copy, Debug)]
pub struct Metal {
    pub albedo: Vec3,
    pub fuzz: Scalar,
}

/// A matte surface.
#[derive(Clone, Copy, Debug)]
pub struct Lambertian {
    pub albedo: Vec3,
}

/// Clear glass and the like.
#[derive(Clone, Copy, Debug)]
pub struct Dielectric {
    pub refraction_index: Scalar,
}

#[derive(Clone, Copy, Debug)]
pub enum MaterialObject {
    MetalObject(Metal),
    LambertianObject(Lambertian),
    DielectricObject(Dielectric),
}

/// What the arithmetic of one bounce has produced. A material reads the part
/// that is meant for it and no other.
#[derive(Clone, Copy, Debug)]
pub struct Sample {
    /// For a matte surface: the normal plus a random unit vector.
    pub diffuse: Vec3,
    /// For a metal: the mirror direction, scaled to length one, plus `fuzz`
    /// times a random unit vector.
    pub fuzzed: Vec3,
    /// The dot product of `fuzzed` and the normal.
    pub fuzzed_facing: Scalar,
    /// For a dielectric: the refraction ratio times the sine of the angle
    /// between the ray and the normal.
    pub bend: Scalar,
    /// Schlick's reflectance at that angle.
    pub reflectance: Scalar,
    /// A uniform draw from `[0, 1)`.
    pub draw: Scalar,
    /// The incoming direction, mirrored about the normal.
    pub reflected: Vec3,
    /// The incoming direction, scaled to length one and refracted.
    pub refracted: Vec3,
}

/// Full light in every channel.
pub open spec fn white() -> Vec3 {
    Vec3 {
        x: Scalar { bits: ONE_BITS },
        y: Scalar { bits: ONE_BITS },
        z: Scalar { bits: ONE_BITS },
    }
}

/// A surface that a ray can meet: it sends the ray on, or takes it in.
pub trait Material {
    /// The scattered ray and the share of light that it keeps, or nothing
    /// where the ray is absorbed.
    spec fn scattered(&self, rec: HitRecord, sample: Sample) -> Option<(Ray, Vec3)>;

    /// Decides what becomes of a ray that has met the surface as `rec` says,
    /// from what the arithmetic has produced for this bounce.
    fn scatter(&self, rec: &HitRecord, sample: &Sample) -> (r: Option<(Ray, Vec3)>)
        ensures
            r == self.scattered(*rec, *sample),
    ;
}

impl Material for Lambertian {
    /// The ray goes on from the hit, along `diffuse` or, where that is near
    /// zero, along the normal; the albedo is kept.
    open spec fn scattered(&self, rec: HitRecord, sample: Sample) -> Option<(Ray, Vec3)> {
        Some(
            (
                Ray {
                    origin: rec.point,
                    direction: if sample.diffuse.is_near_zero() {
                        rec.normal
                    } else {
                        sample.diffuse
                    },
                },
                self.albedo,
            ),
        )
    }

    /// Scatters always, and keeps the albedo.
    fn scatter(&self, rec: &HitRecord, sample: &Sample) -> (r: Option<(Ray, Vec3)>)
        ensures
            r matches Some(out) && out.1 == self.albedo && out.0.origin == rec.point,
    {
        let direction = if sample.diffuse.near_zero() {
            rec.normal
        } else {
            sample.diffuse
        };
        Some((Ray { origin: rec.point, direction }, self.albedo))
    }
}

impl Material for Metal {
    /// The ray goes on along `fuzzed` where that points away from the surface,
    /// and is absorbed where it does not.
    open spec fn scattered(&self, rec: HitRecord, sample: Sample) -> Option<(Ray, Vec3)> {
        if (Scalar { bits: 0 }).is_lt(sample.fuzzed_facing) {
            Some((Ray { origin: rec.point, direction: sample.fuzzed }, self.albedo))
        } else {
            None
        }
    }

    /// Scatters where `fuzzed` points away from the surface, along `fuzzed`
    /// as it is given, and keeps the albedo.
    fn scatter(&self, rec: &HitRecord, sample: &Sample) -> (r: Option<(Ray, Vec3)>)
        ensures
            r is Some <==> (Scalar { bits: 0 }).is_lt(sample.fuzzed_facing),
            r matches Some(out) ==> out.0.direction == sample.fuzzed && out.1 == self.albedo
                && out.0.origin == rec.point,
    {
        if sample.fuzzed_facing.gt(Scalar::zero()) {
            Some((Ray { origin: rec.point, direction: sample.fuzzed }, self.albedo))
        } else {
            None
        }
    }
}

impl Dielectric {
    /// The ratio of the refraction indices on the two sides of the surface, in
    /// the order in which the ray passes them.
    pub open spec fn ratio(self, rec: HitRecord, reciprocal: Scalar) -> Scalar {
        if rec.front_face {
            reciprocal
        } else {
            self.refraction_index
        }
    }

    /// The smaller of `facing` and one; one where `facing` is not a number.
    pub open spec fn capped(facing: Scalar) -> Scalar {
        if facing.is_lt(Scalar { bits: ONE_BITS }) {
            facing
        } else {
            Scalar { bits: ONE_BITS }
        }
    }

    /// Whether no refracted ray exists: `bend`, the refraction ratio times the
    /// sine of the angle of incidence, is above one.
    pub open spec fn reflects_totally(bend: Scalar) -> bool {
        (Scalar { bits: ONE_BITS }).is_lt(bend)
    }

    /// Whether the ray is mirrored and not refracted.
    pub open spec fn mirrors(bend: Scalar, reflectance: Scalar, draw: Scalar) -> bool {
        Dielectric::reflects_totally(bend) || draw.is_lt(reflectance)
    }

    /// `reciprocal` is one divided by the refraction index: the ratio for a
    /// ray that enters.
    pub fn refraction_ratio(&self, rec: &HitRecord, reciprocal: Scalar) -> (r: Scalar)
        ensures
            r == self.ratio(*rec, reciprocal),
    {
        if rec.front_face {
            reciprocal
        } else {
            self.refraction_index
        }
    }

    /// The cosine of the angle of incidence: `facing`, the dot product of the
    /// normal and the reversed unit direction, held at one from above.
    pub fn cos_theta(facing: Scalar) -> (r: Scalar)
        ensures
            r == Dielectric::capped(facing),
            r.is_le(Scalar { bits: ONE_BITS }),
    {
        if facing.lt(Scalar::one()) {
            facing
        } else {
            Scalar::one()
        }
    }

    pub fn cannot_refract(bend: Scalar) -> (r: bool)
        ensures
            r == Dielectric::reflects_totally(bend),
            bend.is_le(Scalar { bits: ONE_BITS }) ==> !r,
    {
        bend.gt(Scalar::one())
    }
}

impl Material for Dielectric {
    /// The ray goes on from the hit, mirrored or refracted, with all of its
    /// light.
    open spec fn scattered(&self, rec: HitRecord, sample: Sample) -> Option<(Ray, Vec3)> {
        Some(
            (
                Ray {
                    origin: rec.point,
                    direction: if Dielectric::mirrors(
                        sample.bend,
                        sample.reflectance,
                        sample.draw,
                    ) {
                        sample.reflected
                    } else {
                        sample.refracted
                    },
                },
                white(),
            ),
        )
    }

    /// Scatters always: mirrored where the ray cannot be refracted or the draw
    /// falls below the reflectance, refracted otherwise.
    fn scatter(&self, rec: &HitRecord, sample: &Sample) -> (r: Option<(Ray, Vec3)>)
        ensures
            r matches Some(out) && out.1 == white() && out.0.origin == rec.point,
    {
        let direction = if Dielectric::cannot_refract(sample.bend) || sample.reflectance.gt(
            sample.draw,
        ) {
            sample.reflected
        } else {
            sample.refracted
        };
        let one = Scalar::one();
        Some((Ray { origin: rec.point, direction }, Vec3::new(one, one, one)))
    }
}

impl Material for MaterialObject {
    open spec fn scattered(&self, rec: HitRecord, sample: Sample) -> Option<(Ray, Vec3)> {
        match self {
            MaterialObject::MetalObject(metal) => metal.scattered(rec, sample),
            MaterialObject::LambertianObject(lambertian) => lambertian.scattered(rec, sample),
            MaterialObject::DielectricObject(dielectric) => dielectric.scattered(rec, sample),
        }
    }

    /// Asks the material that this is.
    fn scatter(&self, rec: &HitRecord, sample: &Sample) -> (r: Option<(Ray, Vec3)>) {
        match self {
            MaterialObject::MetalObject(metal) => metal.scatter(rec, sample),
            MaterialObject::LambertianObject(lambertian) => lambertian.scatter(rec, sample),
            MaterialObject::DielectricObject(dielectric) => dielectric.scatter(rec, sample),
        }
    }
}

/// A ray that is scattered leaves from the point where it met the surface.
pub proof fn lemma_scattered_from_the_hit(
    material: MaterialObject,
    rec: HitRecord,
    sample: Sample,
)
    ensures
        material.scattered(rec, sample) matches Some(out) ==> out.0.origin == rec.point,
{
}

} // verus!
