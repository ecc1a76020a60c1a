//! Which root of a ray-sphere quadratic is the hit.
//!
//! A ray meets a sphere where `a t^2 + 2 half_b t + c = 0`. The caller solves
//! the quadratic; what is decided here is whether there is a hit in the
//! open interval asked for, and which of the two roots it is.
use crate::hittable::HitRecord;
use crate::scalar::Scalar;
use crate::vec3::Vec3;
use vstd::prelude::*;

verus! {

/// The solved quadratic: its discriminant and its two roots, `near` being
/// `(-half_b - sqrt(discriminant)) / a` and `far` the one with `+`.
#[derive(Clone, Copy, Debug, PartialEq, Eq, Structural)]
pub struct Roots {
    pub discriminant: Scalar,
    pub near: Scalar,
    pub far: Scalar,
}

impl Roots {
    /// `far` is not below `near`, as it is whenever `a` is positive.
    pub open spec fn ordered(self) -> bool {
        !self.far.lt_spec(self.near)
    }

    /// No hit for a negative discriminant. Otherwise the near root if it lies
    /// strictly inside `(t_min, t_max)`, else the far root if it does, else
    /// no hit. A NaN lies inside no interval.
    pub open spec fn select_spec(self, t_min: Scalar, t_max: Scalar) -> Option<Scalar> {
        if self.discriminant.lt_spec(Scalar { bits: 0 }) {
            None
        } else if self.near.inside_spec(t_min, t_max) {
            Some(self.near)
        } else if self.far.inside_spec(t_min, t_max) {
            Some(self.far)
        } else {
            None
        }
    }

    pub fn select(&self, t_min: Scalar, t_max: Scalar) -> (root: Option<Scalar>)
        ensures
            root == self.select_spec(t_min, t_max),
    {
        if self.discriminant.lt(Scalar::zero()) {
            None
        } else if self.near.inside(t_min, t_max) {
            Some(self.near)
        } else if self.far.inside(t_min, t_max) {
            Some(self.far)
        } else {
            None
        }
    }
}

/// A sphere at rest. Its centre and radius enter the caller's arithmetic;
/// its material goes into the record of a hit.
#[derive(Clone, Copy, Debug, PartialEq, Eq, Structural)]
pub struct Sphere {
    pub center: Vec3,
    pub r: Scalar,
    pub mat_ptr: usize,
}

/// A sphere whose centre moves in a straight line from `center0` at `time0`
/// to `center1` at `time1`.
#[derive(Clone, Copy, Debug, PartialEq, Eq, Structural)]
pub struct MovingSphere {
    pub center0: Vec3,
    pub center1: Vec3,
    pub time0: Scalar,
    pub time1: Scalar,
    pub r: Scalar,
    pub mat_ptr: usize,
}

/// The record of a hit at parameter `t` and point `p` on a surface of
/// material `mat_ptr`, whose outward normal there is `outward_normal` and
/// meets the ray's direction with dot product `facing`.
pub open spec fn record_spec(mat_ptr: usize, t: Scalar, p: Vec3, outward_normal: Vec3, facing: Scalar) -> HitRecord {
    let front_face = facing.lt_spec(Scalar { bits: 0 });
    HitRecord {
        p,
        normal: if front_face {
            outward_normal
        } else {
            outward_normal.neg_spec()
        },
        t,
        front_face,
        mat_ptr,
        u: Scalar { bits: 0 },
        v: Scalar { bits: 0 },
    }
}

fn record(mat_ptr: usize, t: Scalar, p: Vec3, outward_normal: Vec3, facing: Scalar) -> (rec: HitRecord)
    ensures
        rec == record_spec(mat_ptr, t, p, outward_normal, facing),
{
    let mut rec = HitRecord {
        p,
        normal: Vec3::zero(),
        t,
        front_face: true,
        mat_ptr,
        u: Scalar::zero(),
        v: Scalar::zero(),
    };
    rec.set_face_normal(facing, outward_normal);
    rec
}

impl Sphere {
    /// The parameter at which the ray hits the sphere within `(t_min, t_max)`.
    pub fn hit(&self, roots: &Roots, t_min: Scalar, t_max: Scalar) -> (root: Option<Scalar>)
        ensures
            root == roots.select_spec(t_min, t_max),
    {
        roots.select(t_min, t_max)
    }

    /// The record of the hit found by `hit`, once the caller has the point
    /// and the outward normal `(p - center) / r` there.
    pub fn record(&self, t: Scalar, p: Vec3, outward_normal: Vec3, facing: Scalar) -> (rec: HitRecord)
        ensures
            rec == record_spec(self.mat_ptr, t, p, outward_normal, facing),
    {
        record(self.mat_ptr, t, p, outward_normal, facing)
    }
}

impl MovingSphere {
    /// The parameter at which the ray hits the sphere within `(t_min, t_max)`;
    /// `roots` are those of the sphere where it stands at the ray's time.
    pub fn hit(&self, roots: &Roots, t_min: Scalar, t_max: Scalar) -> (root: Option<Scalar>)
        ensures
            root == roots.select_spec(t_min, t_max),
    {
        roots.select(t_min, t_max)
    }

    /// The record of the hit found by `hit`.
    pub fn record(&self, t: Scalar, p: Vec3, outward_normal: Vec3, facing: Scalar) -> (rec: HitRecord)
        ensures
            rec == record_spec(self.mat_ptr, t, p, outward_normal, facing),
    {
        record(self.mat_ptr, t, p, outward_normal, facing)
    }
}

/// A hit lies strictly inside the interval, is one of the two roots, and
/// with ordered roots is the smaller of those inside: the near root unless
/// it lies outside, and only then the far one.
pub proof fn lemma_select_smallest(roots: Roots, t_min: Scalar, t_max: Scalar)
    requires
        roots.ordered(),
    ensures
        match roots.select_spec(t_min, t_max) {
            Some(t) => {
                &&& t.inside_spec(t_min, t_max)
                &&& t == roots.near || t == roots.far
                &&& roots.near.inside_spec(t_min, t_max) ==> t == roots.near
                &&& roots.near.inside_spec(t_min, t_max) ==> !roots.near.lt_spec(t)
                &&& roots.far.inside_spec(t_min, t_max) ==> !roots.far.lt_spec(t)
            },
            None => roots.discriminant.lt_spec(Scalar { bits: 0 }) || (!roots.near.inside_spec(t_min, t_max)
                && !roots.far.inside_spec(t_min, t_max)),
        },
{
}

/// A sphere that lies behind the ray is not hit: when neither root is
/// positive and the interval starts at zero or later, there is no hit.
pub proof fn lemma_no_hit_behind(roots: Roots, t_min: Scalar, t_max: Scalar)
    requires
        (Scalar { bits: 0 }).le_spec(t_min),
        roots.near.nan() || roots.near.le_spec(Scalar { bits: 0 }),
        roots.far.nan() || roots.far.le_spec(Scalar { bits: 0 }),
    ensures
        roots.select_spec(t_min, t_max).is_none(),
{
}

/// Shortening the interval from above never reveals a new hit: over
/// `(t_min, closer)` the hit is the one over `(t_min, t_max)` if that lies
/// below `closer`, and none otherwise.
pub proof fn lemma_select_shortened(roots: Roots, t_min: Scalar, t_max: Scalar, closer: Scalar)
    requires
        roots.ordered(),
        closer.le_spec(t_max),
    ensures
        roots.select_spec(t_min, closer) == match roots.select_spec(t_min, t_max) {
            Some(t) => if t.lt_spec(closer) {
                Some(t)
            } else {
                None
            },
            None => None,
        },
{
}

} // verus!
