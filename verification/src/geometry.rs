//! Vectors, rays, intervals and hit records.

use vstd::prelude::*;
use crate::material::MaterialObject;
use crate::scalar::Scalar;

pub mod hittable;

verus! {

/// The pattern of `1e-8`: a component of smaller magnitude counts as zero.
pub const NEAR_ZERO_BITS: u64 = 0x3E45_798E_E230_8C3A;

/// The pattern of `2^-52`, the gap between one and the next binary64 number.
pub const EPSILON_BITS: u64 = 0x3CB0_0000_0000_0000;

/// Three binary64 components.
#[derive(Clone, Copy, Debug)]
pub struct Vec3 {
    pub x: Scalar,
    pub y: Scalar,
    pub z: Scalar,
}

impl Vec3 {
    /// The vector with every component's sign flipped.
    pub open spec fn negated(self) -> Vec3 {
        Vec3 { x: self.x.negated(), y: self.y.negated(), z: self.z.negated() }
    }

    /// Whether every component is smaller in magnitude than `1e-8`.
    pub open spec fn is_near_zero(self) -> bool {
        let s = Scalar { bits: NEAR_ZERO_BITS };
        self.x.absolute().is_lt(s) && self.y.absolute().is_lt(s) && self.z.absolute().is_lt(s)
    }

    /// Whether a draw from the cube, of squared length `lensq`, is kept as a
    /// direction: it lies in the unit ball and is long enough to be scaled to
    /// length one.
    pub open spec fn is_kept(lensq: Scalar) -> bool {
        (Scalar { bits: EPSILON_BITS }).is_lt(lensq)
            && lensq.is_le(Scalar { bits: crate::scalar::ONE_BITS })
    }

    /// The vector or its opposite, whichever has a positive dot product
    /// `facing` with the normal; the opposite where that is zero.
    pub open spec fn turned(self, facing: Scalar) -> Vec3 {
        if (Scalar { bits: 0 }).is_lt(facing) {
            self
        } else {
            self.negated()
        }
    }

    /// The vector of the three components.
    pub fn new(x: Scalar, y: Scalar, z: Scalar) -> (v: Vec3)
        ensures
            v.x == x,
            v.y == y,
            v.z == z,
    {
        Vec3 { x, y, z }
    }

    /// The opposite vector.
    pub fn neg(self) -> (v: Vec3)
        ensures
            v == self.negated(),
    {
        Vec3 { x: self.x.neg(), y: self.y.neg(), z: self.z.neg() }
    }

    /// Whether the vector is too short to serve as a direction.
    pub fn near_zero(&self) -> (r: bool)
        ensures
            r == self.is_near_zero(),
    {
        let s = Scalar::from_bits(NEAR_ZERO_BITS);
        self.x.abs().lt(s) && self.y.abs().lt(s) && self.z.abs().lt(s)
    }

    /// Decides one round of rejection sampling for a unit vector: `lensq` is
    /// the squared length of the point drawn.
    pub fn keeps(lensq: Scalar) -> (r: bool)
        ensures
            r == Vec3::is_kept(lensq),
    {
        Scalar::from_bits(EPSILON_BITS).lt(lensq) && lensq.le(Scalar::one())
    }

    /// Turns a unit vector into the hemisphere of a normal: `facing` is the
    /// dot product of the two.
    pub fn on_hemisphere(self, facing: Scalar) -> (v: Vec3)
        ensures
            v == self.turned(facing),
    {
        if Scalar::zero().lt(facing) {
            self
        } else {
            self.neg()
        }
    }
}

/// A range of numbers, used as the window of ray parameters that count.
#[derive(Clone, Copy, Debug)]
pub struct Interval {
    pub min: Scalar,
    pub max: Scalar,
}

impl Interval {
    /// `min <= x <= max`.
    pub open spec fn holds(self, x: Scalar) -> bool {
        self.min.is_le(x) && x.is_le(self.max)
    }

    /// `min < x < max`.
    pub open spec fn encloses(self, x: Scalar) -> bool {
        self.min.is_lt(x) && x.is_lt(self.max)
    }

    /// `x` brought to the nearer bound when it lies outside.
    pub open spec fn clamped(self, x: Scalar) -> Scalar {
        if x.is_lt(self.min) {
            self.min
        } else if self.max.is_lt(x) {
            self.max
        } else {
            x
        }
    }

    /// Whether `x` lies in the interval, the bounds counted in.
    pub fn contains(&self, x: Scalar) -> (r: bool)
        ensures
            r == self.holds(x),
    {
        self.min.le(x) && x.le(self.max)
    }

    /// Whether `x` lies in the interval, the bounds left out.
    pub fn surrounds(&self, x: Scalar) -> (r: bool)
        ensures
            r == self.encloses(x),
    {
        self.min.lt(x) && x.lt(self.max)
    }

    /// `x`, or the bound that it lies beyond. The result lies in the
    /// interval exactly where `x` is a number and the interval is not empty.
    pub fn clamp(&self, x: Scalar) -> (r: Scalar)
        ensures
            r == self.clamped(x),
            self.holds(r) <==> !x.is_nan() && self.min.is_le(self.max),
    {
        if x.lt(self.min) {
            return self.min;
        }
        if x.gt(self.max) {
            return self.max;
        }
        x
    }

    /// Both bounds of an interval that is not empty are contained in it, and
    /// neither is surrounded by it.
    pub proof fn lemma_bounds(self)
        ensures
            self.min.is_le(self.max) ==> self.holds(self.min) && self.holds(self.max),
            !self.encloses(self.min),
            !self.encloses(self.max),
    {
    }

    /// What an interval surrounds it contains.
    pub proof fn lemma_encloses_holds(self, x: Scalar)
        requires
            self.encloses(x),
        ensures
            self.holds(x),
    {
    }
}

/// A half-line: the points `origin + t * direction`.
#[derive(Clone, Copy, Debug)]
pub struct Ray {
    pub origin: Vec3,
    pub direction: Vec3,
}

/// Where a ray met a surface.
#[derive(Clone, Copy, Debug)]
pub struct HitRecord<'a> {
    pub point: Vec3,
    /// Of length one, and against the ray.
    pub normal: Vec3,
    pub t: Scalar,
    pub front_face: bool,
    pub material: &'a MaterialObject,
}

impl<'a> HitRecord<'a> {
    /// The record of a ray that meets a surface at `point`, where the surface's
    /// outward normal is `outward_normal` and `facing` is that normal's dot
    /// product with the ray's direction.
    pub open spec fn oriented(
        point: Vec3,
        t: Scalar,
        outward_normal: Vec3,
        facing: Scalar,
        material: &'a MaterialObject,
    ) -> HitRecord<'a> {
        let front_face = facing.is_lt(Scalar { bits: 0 });
        HitRecord {
            point,
            normal: if front_face { outward_normal } else { outward_normal.negated() },
            t,
            front_face,
            material,
        }
    }

    /// Records a hit, with its normal turned against the ray: the hit is on
    /// the front face where `facing` is below zero.
    pub fn new(
        point: Vec3,
        t: Scalar,
        outward_normal: Vec3,
        facing: Scalar,
        material: &'a MaterialObject,
    ) -> (rec: HitRecord<'a>)
        ensures
            rec == HitRecord::oriented(point, t, outward_normal, facing, material),
    {
        let front_face = facing.lt(Scalar::zero());
        HitRecord {
            point,
            normal: if front_face { outward_normal } else { outward_normal.neg() },
            t,
            front_face,
            material,
        }
    }
}

} // verus!
