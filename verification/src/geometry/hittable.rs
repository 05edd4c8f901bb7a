//! What a ray can meet: spheres, and lists of what a ray can meet.

use vstd::prelude::*;
use crate::geometry::{HitRecord, Interval, Vec3};
use crate::material::MaterialObject;
use crate::scalar::Scalar;

verus! {

/// One root of a sphere's quadratic, and what the ray finds there.
#[derive(Clone, Copy, Debug)]
pub struct Touch {
    /// The root: the ray's parameter.
    pub t: Scalar,
    /// The ray at `t`.
    pub point: Vec3,
    /// From the sphere's centre to `point`, scaled to length one.
    pub outward_normal: Vec3,
    /// The dot product of `outward_normal` and the ray's direction.
    pub facing: Scalar,
}

/// The quadratic `|O + tD - C|^2 = r^2` of one ray and one sphere, solved:
/// with `a = |D|^2`, `h = D.(C - O)` and `c = |C - O|^2 - r^2`, the
/// discriminant is `h^2 - a c`, and its roots are `(h -+ sqrt(discriminant)) / a`.
#[derive(Clone, Copy, Debug)]
pub struct Crossing {
    pub discriminant: Scalar,
    /// At the root `(h - sqrt(discriminant)) / a`.
    pub near: Touch,
    /// At the root `(h + sqrt(discriminant)) / a`.
    pub far: Touch,
}

impl Crossing {
    /// The root at which the ray counts as meeting the sphere: none where the
    /// discriminant is negative; else the near root if the window surrounds
    /// it, else the far root if the window surrounds that.
    pub open spec fn entry(self, ray_t: Interval) -> Option<Touch> {
        if self.discriminant.is_lt(Scalar { bits: 0 }) {
            None
        } else if ray_t.encloses(self.near.t) {
            Some(self.near)
        } else if ray_t.encloses(self.far.t) {
            Some(self.far)
        } else {
            None
        }
    }

    pub fn first_within(&self, ray_t: Interval) -> (r: Option<Touch>)
        ensures
            r == self.entry(ray_t),
    {
        if self.discriminant.lt(Scalar::zero()) {
            return None;
        }
        if ray_t.surrounds(self.near.t) {
            Some(self.near)
        } else if ray_t.surrounds(self.far.t) {
            Some(self.far)
        } else {
            None
        }
    }
}

#[derive(Clone, Copy, Debug)]
pub struct Sphere {
    pub center: Vec3,
    pub radius: Scalar,
    pub material: MaterialObject,
}

impl Sphere {
    /// The record of the ray's meeting with this sphere inside the window.
    pub open spec fn struck(&self, crossing: Crossing, ray_t: Interval) -> Option<HitRecord<'_>> {
        match crossing.entry(ray_t) {
            Some(touch) => Some(
                HitRecord::oriented(
                    touch.point,
                    touch.t,
                    touch.outward_normal,
                    touch.facing,
                    &self.material,
                ),
            ),
            None => None,
        }
    }

    pub fn new(center: Vec3, radius: Scalar, material: MaterialObject) -> (s: Sphere)
        ensures
            s.center == center,
            s.radius == radius,
            s.material == material,
    {
        Sphere { center, radius, material }
    }

    /// The ray's meeting with this sphere inside the window, from the ray's
    /// crossing with it.
    pub fn meet(&self, crossing: &Crossing, ray_t: Interval) -> (r: Option<HitRecord<'_>>)
        ensures
            r == self.struck(*crossing, ray_t),
    {
        match crossing.first_within(ray_t) {
            Some(touch) => Some(
                HitRecord::new(
                    touch.point,
                    touch.t,
                    touch.outward_normal,
                    touch.facing,
                    &self.material,
                ),
            ),
            None => None,
        }
    }
}

/// Several things a ray can meet, asked in order.
pub struct HittableList {
    pub objects: Vec<HittableObject>,
}

pub enum HittableObject {
    SphereObject(Sphere),
    HittableListObject(HittableList),
}

/// The spheres of the first `n` of `objects`, in the order in which a ray is
/// held against them.
pub open spec fn spheres_of(objects: Seq<HittableObject>, n: nat) -> Seq<Sphere>
    decreases objects, n,
{
    if n == 0 || n > objects.len() {
        Seq::empty()
    } else {
        spheres_of(objects, (n - 1) as nat) + spheres_in(objects[n - 1])
    }
}

/// The window that is left once `best` has been found: it ends at the hit.
pub open spec fn narrowed(ray_t: Interval, best: Option<HitRecord>) -> Interval {
    Interval {
        min: ray_t.min,
        max: match best {
            Some(rec) => rec.t,
            None => ray_t.max,
        },
    }
}

/// The hit that is kept after the ray has been held against the first `n`
/// spheres, each with its own crossing: a sphere replaces the hit kept so far
/// where the ray meets it inside the window narrowed to that hit.
pub open spec fn nearest<'a>(
    spheres: Seq<Sphere>,
    crossings: Seq<Crossing>,
    ray_t: Interval,
    n: nat,
) -> Option<HitRecord<'a>>
    decreases n,
{
    if n == 0 {
        None
    } else {
        let before = nearest(spheres, crossings, ray_t, (n - 1) as nat);
        match spheres[n - 1].struck(crossings[n - 1], narrowed(ray_t, before)) {
            Some(rec) => Some(rec),
            None => before,
        }
    }
}

/// The spheres of an object, in the order in which a ray is held against them.
pub open spec fn spheres_in(object: HittableObject) -> Seq<Sphere>
    decreases object,
{
    match object {
        HittableObject::SphereObject(sphere) => seq![sphere],
        HittableObject::HittableListObject(list) => spheres_of(list.objects@, list.objects@.len()),
    }
}

/// Anything that a ray can meet.
pub trait Hittable {
    /// The spheres that make it up, in the order in which a ray is held
    /// against them.
    spec fn spheres(&self) -> Seq<Sphere>;

    /// The nearest meeting of a ray with this object inside the window, where
    /// `crossings` holds the ray's crossing with each sphere of the object, in
    /// the order of `spheres`. The hit lies strictly inside the window, and no
    /// sphere of the object is met, inside the window, nearer than it.
    fn hit<'a>(&'a self, crossings: &Vec<Crossing>, ray_t: Interval) -> (r: Option<
        HitRecord<'a>,
    >)
        requires
            crossings@.len() == self.spheres().len(),
        ensures
            r == nearest(self.spheres(), crossings@, ray_t, self.spheres().len()),
            r matches Some(rec) ==> ray_t.encloses(rec.t),
            forall|k: int|
                0 <= k < self.spheres().len() ==> ((#[trigger] self.spheres()[k].struck(
                    crossings@[k],
                    ray_t,
                )) matches Some(other) ==> (r matches Some(rec) && rec.t.is_le(other.t))),
    ;
}

/// The spheres of the first `i` objects open those of the first `n`.
pub proof fn lemma_spheres_of_prefix(objects: Seq<HittableObject>, i: nat, n: nat)
    requires
        i <= n <= objects.len(),
    ensures
        spheres_of(objects, i).len() <= spheres_of(objects, n).len(),
        spheres_of(objects, n).subrange(0, spheres_of(objects, i).len() as int) == spheres_of(
            objects,
            i,
        ),
    decreases n,
{
    if i < n {
        lemma_spheres_of_prefix(objects, i, (n - 1) as nat);
    }
}

impl Hittable for Sphere {
    open spec fn spheres(&self) -> Seq<Sphere> {
        seq![*self]
    }

    fn hit<'a>(&'a self, crossings: &Vec<Crossing>, ray_t: Interval) -> (r: Option<
        HitRecord<'a>,
    >) {
        proof {
            let all = self.spheres();
            assert(all.len() == 1 && all[0] == *self);
            assert(nearest(all, crossings@, ray_t, 0) is None);
            assert(narrowed(ray_t, None) == ray_t);
        }
        self.meet(&crossings[0], ray_t)
    }
}

impl HittableObject {
    /// Holds the ray against the spheres of this object, which are those of
    /// `all` from `first` on, after the spheres before them have left `best`.
    /// Returns the hit kept, and the place of the next sphere.
    fn hit_after<'a>(
        &'a self,
        crossings: &Vec<Crossing>,
        first: usize,
        ray_t: Interval,
        best: Option<HitRecord<'a>>,
        Ghost(all): Ghost<Seq<Sphere>>,
    ) -> (r: (Option<HitRecord<'a>>, usize))
        requires
            first + spheres_in(*self).len() <= crossings@.len(),
            first + spheres_in(*self).len() <= all.len(),
            all.subrange(first as int, first + spheres_in(*self).len()) == spheres_in(*self),
            best == nearest(all, crossings@, ray_t, first as nat),
        ensures
            r.1 == first + spheres_in(*self).len(),
            r.0 == nearest(all, crossings@, ray_t, r.1 as nat),
        decreases self,
    {
        match self {
            HittableObject::SphereObject(sphere) => {
                assert(spheres_in(*self).len() == 1);
                assert(first < crossings.len());
                assert(all[first as int] == spheres_in(*self)[0]);
                let window = Interval {
                    min: ray_t.min,
                    max: match best {
                        Some(rec) => rec.t,
                        None => ray_t.max,
                    },
                };
                match sphere.meet(&crossings[first], window) {
                    Some(rec) => (Some(rec), first + 1),
                    None => (best, first + 1),
                }
            },
            HittableObject::HittableListObject(list) => {
                assert(decreases_to!(*self => self->HittableListObject_0));
                list.hit_after(crossings, first, ray_t, best, Ghost(all))
            },
        }
    }

    /// Appends the spheres of this object to `out`.
    fn collect(&self, out: &mut Vec<Sphere>)
        ensures
            final(out)@ == old(out)@ + spheres_in(*self),
        decreases self,
    {
        match self {
            HittableObject::SphereObject(sphere) => {
                out.push(*sphere);
            },
            HittableObject::HittableListObject(list) => {
                assert(decreases_to!(*self => self->HittableListObject_0));
                list.collect(out);
            },
        }
    }

    /// The spheres of this object, in the order in which `hit` takes their
    /// crossings.
    pub fn flatten(&self) -> (r: Vec<Sphere>)
        ensures
            r@ == self.spheres(),
    {
        let mut out: Vec<Sphere> = Vec::new();
        self.collect(&mut out);
        out
    }
}

impl Hittable for HittableObject {
    open spec fn spheres(&self) -> Seq<Sphere> {
        spheres_in(*self)
    }

    fn hit<'a>(&'a self, crossings: &Vec<Crossing>, ray_t: Interval) -> (r: Option<
        HitRecord<'a>,
    >) {
        let ghost all = spheres_in(*self);
        assert(all.subrange(0, all.len() as int) == all);
        let (best, _) = self.hit_after(crossings, 0, ray_t, None, Ghost(all));
        proof {
            lemma_nearest_within(all, crossings@, ray_t, all.len());
            assert forall|k: int| 0 <= k < all.len() implies ((#[trigger] all[k].struck(
                crossings@[k],
                ray_t,
            )) matches Some(other) ==> (best matches Some(rec) && rec.t.is_le(other.t))) by {
                lemma_nearest_closest(all, crossings@, ray_t, all.len(), k);
            }
        }
        best
    }
}

impl HittableList {
    /// Holds the ray against the spheres of this list, which are those of
    /// `all` from `first` on, after the spheres before them have left `best`.
    /// Each object is asked once, with the window narrowed to the nearest hit
    /// so far, so that only a strictly nearer one takes its place. Returns the
    /// hit kept, and the place of the next sphere.
    fn hit_after<'a>(
        &'a self,
        crossings: &Vec<Crossing>,
        first: usize,
        ray_t: Interval,
        best: Option<HitRecord<'a>>,
        Ghost(all): Ghost<Seq<Sphere>>,
    ) -> (r: (Option<HitRecord<'a>>, usize))
        requires
            first + self.spheres().len() <= crossings@.len(),
            first + self.spheres().len() <= all.len(),
            all.subrange(first as int, first + self.spheres().len()) == self.spheres(),
            best == nearest(all, crossings@, ray_t, first as nat),
        ensures
            r.1 == first + self.spheres().len(),
            r.0 == nearest(all, crossings@, ray_t, r.1 as nat),
        decreases self,
    {
        let ghost total = self.spheres().len();
        let mut kept = best;
        let mut next = first;
        let mut i: usize = 0;
        while i < self.objects.len()
            invariant
                total == self.spheres().len(),
                first + total <= crossings@.len(),
                first + total <= all.len(),
                all.subrange(first as int, first + total) == self.spheres(),
                i <= self.objects.len(),
                next == first + spheres_of(self.objects@, i as nat).len(),
                kept == nearest(all, crossings@, ray_t, next as nat),
            decreases self.objects.len() - i,
        {
            let child = &self.objects[i];
            proof {
                let objects = self.objects@;
                let whole = self.spheres();
                let inner = spheres_in(*child);
                lemma_spheres_of_prefix(objects, (i + 1) as nat, objects.len());
                let upto = spheres_of(objects, (i + 1) as nat);
                assert(upto == spheres_of(objects, i as nat) + inner);
                assert(all.subrange(next as int, next + inner.len()) =~= inner) by {
                    assert forall|k: int| 0 <= k < inner.len() implies all[next + k]
                        == inner[k] by {
                        let at = spheres_of(objects, i as nat).len() + k;
                        assert(all[first + at] == all.subrange(first as int, first + total)[at]);
                        assert(whole[at] == whole.subrange(0, upto.len() as int)[at]);
                        assert(upto[at] == inner[k]);
                    }
                }
                assert(decreases_to!(*self => self.objects));
                assert(decreases_to!(self.objects => self.objects[i as int]));
            }
            let (found, after) = child.hit_after(crossings, next, ray_t, kept, Ghost(all));
            kept = found;
            next = after;
            i = i + 1;
        }
        (kept, next)
    }

    /// Appends the spheres of this list to `out`.
    fn collect(&self, out: &mut Vec<Sphere>)
        ensures
            final(out)@ == old(out)@ + self.spheres(),
        decreases self,
    {
        let mut i: usize = 0;
        while i < self.objects.len()
            invariant
                i <= self.objects.len(),
                out@ == old(out)@ + spheres_of(self.objects@, i as nat),
            decreases self.objects.len() - i,
        {
            proof {
                assert(decreases_to!(*self => self.objects));
                assert(decreases_to!(self.objects => self.objects[i as int]));
            }
            self.objects[i].collect(out);
            i = i + 1;
        }
    }

    /// The spheres of this list, in the order in which `hit` takes their
    /// crossings.
    pub fn flatten(&self) -> (r: Vec<Sphere>)
        ensures
            r@ == self.spheres(),
    {
        let mut out: Vec<Sphere> = Vec::new();
        self.collect(&mut out);
        out
    }

    pub fn new() -> (list: HittableList)
        ensures
            list.objects@.len() == 0,
    {
        HittableList { objects: Vec::new() }
    }

    pub fn add(&mut self, obj: HittableObject)
        ensures
            final(self).objects@ == old(self).objects@.push(obj),
            final(self).spheres() == old(self).spheres() + obj.spheres(),
    {
        proof {
            lemma_spheres_of_push(self.objects@, obj, self.objects@.len());
        }
        self.objects.push(obj);
    }
}

impl Hittable for HittableList {
    open spec fn spheres(&self) -> Seq<Sphere> {
        spheres_of(self.objects@, self.objects@.len())
    }

    fn hit<'a>(&'a self, crossings: &Vec<Crossing>, ray_t: Interval) -> (r: Option<
        HitRecord<'a>,
    >) {
        let ghost all = self.spheres();
        assert(all.subrange(0, all.len() as int) == all);
        let (best, _) = self.hit_after(crossings, 0, ray_t, None, Ghost(all));
        proof {
            lemma_nearest_within(all, crossings@, ray_t, all.len());
            assert forall|k: int| 0 <= k < all.len() implies ((#[trigger] all[k].struck(
                crossings@[k],
                ray_t,
            )) matches Some(other) ==> (best matches Some(rec) && rec.t.is_le(other.t))) by {
                lemma_nearest_closest(all, crossings@, ray_t, all.len(), k);
            }
        }
        best
    }
}

/// An object added at the end leaves the spheres of those before it as they were.
pub proof fn lemma_spheres_of_push(objects: Seq<HittableObject>, obj: HittableObject, n: nat)
    requires
        n <= objects.len(),
    ensures
        spheres_of(objects.push(obj), n) == spheres_of(objects, n),
    decreases n,
{
    if n > 0 {
        lemma_spheres_of_push(objects, obj, (n - 1) as nat);
    }
}

/// The hit that is kept lies strictly inside the caller's window.
pub proof fn lemma_nearest_within(
    spheres: Seq<Sphere>,
    crossings: Seq<Crossing>,
    ray_t: Interval,
    n: nat,
)
    ensures
        nearest(spheres, crossings, ray_t, n) matches Some(rec) ==> ray_t.encloses(rec.t),
    decreases n,
{
    if n > 0 {
        lemma_nearest_within(spheres, crossings, ray_t, (n - 1) as nat);
    }
}

/// A hit, once kept, is replaced only by a strictly nearer one: the first of
/// two spheres that the ray meets at the same parameter stays.
pub proof fn lemma_nearest_replaced(
    spheres: Seq<Sphere>,
    crossings: Seq<Crossing>,
    ray_t: Interval,
    n: nat,
)
    ensures
        nearest(spheres, crossings, ray_t, n) matches Some(before) ==> (nearest(
            spheres,
            crossings,
            ray_t,
            n + 1,
        ) matches Some(after) && (after == before || after.t.is_lt(before.t))),
{
}

/// No sphere among the first `n` is met, inside the caller's window, nearer
/// than the hit that is kept; and where one of them is met there, a hit is kept.
pub proof fn lemma_nearest_closest(
    spheres: Seq<Sphere>,
    crossings: Seq<Crossing>,
    ray_t: Interval,
    n: nat,
    k: int,
)
    requires
        0 <= k < n,
    ensures
        spheres[k].struck(crossings[k], ray_t) matches Some(other) ==> (nearest(
            spheres,
            crossings,
            ray_t,
            n,
        ) matches Some(rec) && rec.t.is_le(other.t)),
    decreases n,
{
    lemma_nearest_within(spheres, crossings, ray_t, (n - 1) as nat);
    if k < n - 1 {
        lemma_nearest_closest(spheres, crossings, ray_t, (n - 1) as nat, k);
        lemma_nearest_replaced(spheres, crossings, ray_t, (n - 1) as nat);
    }
}

/// No hit is kept exactly where the ray meets none of the first `n` spheres
/// inside the caller's window.
pub proof fn lemma_nearest_none(
    spheres: Seq<Sphere>,
    crossings: Seq<Crossing>,
    ray_t: Interval,
    n: nat,
)
    ensures
        nearest(spheres, crossings, ray_t, n) is None <==> (forall|k: int|
            0 <= k < n ==> (#[trigger] spheres[k].struck(crossings[k], ray_t)) is None),
    decreases n,
{
    if n > 0 {
        lemma_nearest_none(spheres, crossings, ray_t, (n - 1) as nat);
        if nearest(spheres, crossings, ray_t, n) is None {
            assert forall|k: int| 0 <= k < n implies (#[trigger] spheres[k].struck(
                crossings[k],
                ray_t,
            )) is None by {
                lemma_nearest_closest(spheres, crossings, ray_t, n, k);
            }
        }
    }
}

/// Whether the near root of each of the first `n` crossings is not above its
/// far root, as the roots of a quadratic with a positive leading term are.
pub open spec fn roots_in_order(crossings: Seq<Crossing>, n: nat) -> bool {
    forall|k: int| 0 <= k < n ==> !(#[trigger] crossings[k]).far.t.is_lt(crossings[k].near.t)
}

/// With the roots in order, the hit that is kept is the record that one of the
/// spheres gives by itself in the caller's window: narrowing the window makes
/// a sphere drop out, and never makes it answer with another root.
pub proof fn lemma_nearest_is_own_hit(
    spheres: Seq<Sphere>,
    crossings: Seq<Crossing>,
    ray_t: Interval,
    n: nat,
)
    requires
        roots_in_order(crossings, n),
    ensures
        nearest(spheres, crossings, ray_t, n) matches Some(rec) ==> exists|k: int|
            0 <= k < n && (#[trigger] spheres[k].struck(crossings[k], ray_t)) == Some(rec),
    decreases n,
{
    if n > 0 {
        let before = nearest(spheres, crossings, ray_t, (n - 1) as nat);
        lemma_nearest_is_own_hit(spheres, crossings, ray_t, (n - 1) as nat);
        lemma_nearest_within(spheres, crossings, ray_t, (n - 1) as nat);
        let last = n - 1;
        let crossing = crossings[last];
        assert(!crossing.far.t.is_lt(crossing.near.t));
        match spheres[last].struck(crossing, narrowed(ray_t, before)) {
            Some(rec) => {
                assert(spheres[last].struck(crossing, ray_t) == Some(rec));
            },
            None => {},
        }
    }
}

} // verus!
