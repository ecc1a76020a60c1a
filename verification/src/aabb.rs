//! Axis-aligned bounding boxes: their union, and the slab test.
use crate::scalar::{lemma_neg, Scalar};
use crate::utility::{fmax, fmax_spec, fmin, fmin_spec};
use crate::vec3::Vec3;
use vstd::prelude::*;

verus! {

/// A box given by its smallest and its largest corner.
#[derive(Clone, Copy, Debug, PartialEq, Eq, Structural)]
pub struct AABB {
    pub min: Vec3,
    pub max: Vec3,
}

/// What one axis of a box looks like from a ray: the reciprocal of the ray's
/// direction along the axis, and the ray parameters at which the ray meets
/// the box's lower face (`t0`) and upper face (`t1`).
#[derive(Clone, Copy, Debug, PartialEq, Eq, Structural)]
pub struct Slab {
    pub inv_d: Scalar,
    pub t0: Scalar,
    pub t1: Scalar,
}

impl Slab {
    /// The parameter at which the ray enters the slab: the faces trade places
    /// when the ray runs against the axis.
    pub open spec fn entry(self) -> Scalar {
        if self.inv_d.lt_spec(Scalar { bits: 0 }) {
            self.t1
        } else {
            self.t0
        }
    }

    /// The parameter at which the ray leaves the slab.
    pub open spec fn exit(self) -> Scalar {
        if self.inv_d.lt_spec(Scalar { bits: 0 }) {
            self.t0
        } else {
            self.t1
        }
    }

    /// The same slab seen from the ray that runs the other way.
    pub open spec fn reversed(self) -> Slab {
        Slab { inv_d: self.inv_d.neg_spec(), t0: self.t0.neg_spec(), t1: self.t1.neg_spec() }
    }

    /// All three are numbers, and where the reciprocal is zero the two faces
    /// are met at the same parameter (as they are for a ray of infinite
    /// speed along the axis).
    pub open spec fn regular(self) -> bool {
        &&& !self.inv_d.nan()
        &&& !self.t0.nan()
        &&& !self.t1.nan()
        &&& self.inv_d.key() == 0 ==> self.t0.key() == self.t1.key()
    }
}

impl AABB {
    /// Each axis has its smaller coordinate in `min`. No coordinate of such a
    /// box is a NaN.
    pub open spec fn wf(self) -> bool {
        forall|axis: int| 0 <= axis < 3 ==> (#[trigger] self.min.at(axis)).le_spec(self.max.at(axis))
    }

    /// `inner` lies within `self` on every axis.
    pub open spec fn contains(self, inner: AABB) -> bool {
        forall|axis: int|
            0 <= axis < 3 ==> (#[trigger] self.min.at(axis)).le_spec(inner.min.at(axis))
                && inner.max.at(axis).le_spec(self.max.at(axis))
    }

    /// No coordinate is a NaN.
    pub open spec fn numbers(self) -> bool {
        self.min.finite_order() && self.max.finite_order()
    }

    /// Equal as numbers, corner by corner.
    pub open spec fn same_spec(self, other: AABB) -> bool {
        self.min.same_spec(other.min) && self.max.same_spec(other.max)
    }

    /// The smallest box around both: the lesser of the two minima and the
    /// greater of the two maxima on each axis.
    pub open spec fn surrounding_box_spec(box0: AABB, box1: AABB) -> AABB {
        AABB {
            min: Vec3 {
                x: fmin_spec(box0.min.x, box1.min.x),
                y: fmin_spec(box0.min.y, box1.min.y),
                z: fmin_spec(box0.min.z, box1.min.z),
            },
            max: Vec3 {
                x: fmax_spec(box0.max.x, box1.max.x),
                y: fmax_spec(box0.max.y, box1.max.y),
                z: fmax_spec(box0.max.z, box1.max.z),
            },
        }
    }

    /// The slab test from axis `axis` on, with the interval narrowed so far:
    /// each axis raises the lower end to the slab's entry and lowers the
    /// upper end to its exit, and the ray misses once the interval is empty.
    pub open spec fn hit_from(slabs: Seq<Slab>, axis: int, t_min: Scalar, t_max: Scalar) -> bool
        decreases slabs.len() - axis,
    {
        if axis < 0 || axis >= slabs.len() {
            true
        } else {
            let lo = fmax_spec(slabs[axis].entry(), t_min);
            let hi = fmin_spec(slabs[axis].exit(), t_max);
            if hi.le_spec(lo) {
                false
            } else {
                Self::hit_from(slabs, axis + 1, lo, hi)
            }
        }
    }

    /// Whether the ray passes through the box somewhere in `(t_min, t_max)`.
    pub open spec fn hit_spec(slabs: Seq<Slab>, t_min: Scalar, t_max: Scalar) -> bool {
        Self::hit_from(slabs, 0, t_min, t_max)
    }

    pub fn new(min: Vec3, max: Vec3) -> (b: AABB)
        ensures
            b == (AABB { min, max }),
    {
        AABB { min, max }
    }

    /// The slab test on the three axes of a box as the ray sees them.
    pub fn hit(slabs: &[Slab; 3], t_min: Scalar, t_max: Scalar) -> (through: bool)
        ensures
            through == Self::hit_spec(slabs@, t_min, t_max),
    {
        let mut lo = t_min;
        let mut hi = t_max;
        let mut i: usize = 0;
        while i < 3
            invariant
                i <= 3,
                slabs@.len() == 3,
                Self::hit_spec(slabs@, t_min, t_max) == Self::hit_from(slabs@, i as int, lo, hi),
            decreases 3 - i,
        {
            let slab = slabs[i];
            let mut t0 = slab.t0;
            let mut t1 = slab.t1;
            if slab.inv_d.lt(Scalar::zero()) {
                let swapped = t0;
                t0 = t1;
                t1 = swapped;
            }
            lo = fmax(t0, lo);
            hi = fmin(t1, hi);
            if hi.le(lo) {
                return false;
            }
            i += 1;
        }
        true
    }

    pub fn surrounding_box(box0: AABB, box1: AABB) -> (around: AABB)
        ensures
            around == Self::surrounding_box_spec(box0, box1),
    {
        let small = Vec3::new(
            fmin(box0.min.x, box1.min.x),
            fmin(box0.min.y, box1.min.y),
            fmin(box0.min.z, box1.min.z),
        );
        let big = Vec3::new(
            fmax(box0.max.x, box1.max.x),
            fmax(box0.max.y, box1.max.y),
            fmax(box0.max.z, box1.max.z),
        );
        AABB::new(small, big)
    }
}

/// Both boxes lie within the box around them, which is well formed if they
/// are.
pub proof fn lemma_surrounding_box_contains(a: AABB, b: AABB)
    requires
        a.numbers(),
        b.numbers(),
    ensures
        AABB::surrounding_box_spec(a, b).numbers(),
        AABB::surrounding_box_spec(a, b).contains(a),
        AABB::surrounding_box_spec(a, b).contains(b),
        a.wf() && b.wf() ==> AABB::surrounding_box_spec(a, b).wf(),
{
    let s = AABB::surrounding_box_spec(a, b);
    assert forall|axis: int| 0 <= axis < 3 implies (#[trigger] s.min.at(axis)).le_spec(a.min.at(axis))
        && a.max.at(axis).le_spec(s.max.at(axis)) && s.min.at(axis).le_spec(b.min.at(axis)) && b.max.at(
        axis,
    ).le_spec(s.max.at(axis)) by {
        assert(axis == 0 || axis == 1 || axis == 2);
    }
    if a.wf() && b.wf() {
        assert forall|axis: int| 0 <= axis < 3 implies (#[trigger] s.min.at(axis)).le_spec(s.max.at(axis)) by {
            assert(a.min.at(axis).le_spec(a.max.at(axis)));
            assert(b.min.at(axis).le_spec(b.max.at(axis)));
            assert(axis == 0 || axis == 1 || axis == 2);
        }
    }
}

/// The box around two boxes does not depend on which comes first.
pub proof fn lemma_surrounding_box_commutative(a: AABB, b: AABB)
    requires
        a.numbers(),
        b.numbers(),
    ensures
        AABB::surrounding_box_spec(a, b).same_spec(AABB::surrounding_box_spec(b, a)),
{
}

/// The box around three boxes does not depend on how they are paired.
pub proof fn lemma_surrounding_box_associative(a: AABB, b: AABB, c: AABB)
    requires
        a.numbers(),
        b.numbers(),
        c.numbers(),
    ensures
        AABB::surrounding_box_spec(AABB::surrounding_box_spec(a, b), c).same_spec(
            AABB::surrounding_box_spec(a, AABB::surrounding_box_spec(b, c)),
        ),
{
}

/// Containment carries over: a box within a box within a third lies within
/// the third.
pub proof fn lemma_contains_transitive(a: AABB, b: AABB, c: AABB)
    requires
        a.contains(b),
        b.contains(c),
    ensures
        a.contains(c),
{
    assert forall|axis: int| 0 <= axis < 3 implies (#[trigger] a.min.at(axis)).le_spec(c.min.at(axis))
        && c.max.at(axis).le_spec(a.max.at(axis)) by {
        assert(a.min.at(axis).le_spec(b.min.at(axis)));
        assert(b.min.at(axis).le_spec(c.min.at(axis)));
    }
}

/// The slabs of the reversed ray, axis by axis.
pub open spec fn reversed_slabs(slabs: Seq<Slab>) -> Seq<Slab> {
    Seq::new(slabs.len(), |axis: int| slabs[axis].reversed())
}

proof fn lemma_hit_from_reversed(slabs: Seq<Slab>, axis: int, lo: Scalar, hi: Scalar, rlo: Scalar, rhi: Scalar)
    requires
        0 <= axis <= slabs.len(),
        forall|k: int| 0 <= k < slabs.len() ==> (#[trigger] slabs[k]).regular(),
        !lo.nan(),
        !hi.nan(),
        !rlo.nan(),
        !rhi.nan(),
        rlo.key() == -hi.key(),
        rhi.key() == -lo.key(),
    ensures
        AABB::hit_from(reversed_slabs(slabs), axis, rlo, rhi) == AABB::hit_from(slabs, axis, lo, hi),
    decreases slabs.len() - axis,
{
    let rev = reversed_slabs(slabs);
    if axis < slabs.len() {
        let s = slabs[axis];
        assert(s.regular());
        assert(rev[axis] == s.reversed());
        lemma_neg(s.inv_d);
        lemma_neg(s.t0);
        lemma_neg(s.t1);
        let nlo = fmax_spec(s.entry(), lo);
        let nhi = fmin_spec(s.exit(), hi);
        let rnlo = fmax_spec(rev[axis].entry(), rlo);
        let rnhi = fmin_spec(rev[axis].exit(), rhi);
        assert(rev[axis].entry().key() == -s.exit().key());
        assert(rev[axis].exit().key() == -s.entry().key());
        assert(rnlo.key() == -nhi.key());
        assert(rnhi.key() == -nlo.key());
        if !nhi.le_spec(nlo) {
            lemma_hit_from_reversed(slabs, axis + 1, nlo, nhi, rnlo, rnhi);
        }
    }
}

/// The slab test gives the same answer for the reversed ray over the
/// mirrored interval: turning the ray round negates every slab parameter,
/// and `(t_min, t_max)` becomes `(-t_max, -t_min)`.
pub proof fn lemma_hit_reversed(slabs: Seq<Slab>, t_min: Scalar, t_max: Scalar)
    requires
        forall|k: int| 0 <= k < slabs.len() ==> (#[trigger] slabs[k]).regular(),
        !t_min.nan(),
        !t_max.nan(),
    ensures
        AABB::hit_spec(reversed_slabs(slabs), t_max.neg_spec(), t_min.neg_spec()) == AABB::hit_spec(
            slabs,
            t_min,
            t_max,
        ),
{
    lemma_neg(t_min);
    lemma_neg(t_max);
    lemma_hit_from_reversed(slabs, 0, t_min, t_max, t_max.neg_spec(), t_min.neg_spec());
}

} // verus!
