//! Hit records, and closest-hit search over a flat list of objects.
use crate::aabb::{lemma_contains_transitive, lemma_surrounding_box_contains, AABB};
use crate::scalar::Scalar;
use crate::sphere::Roots;
use crate::vec3::Vec3;
use vstd::prelude::*;

verus! {

/// Where and how a ray met a surface.
#[derive(Clone, Copy, Debug, PartialEq, Eq, Structural)]
pub struct HitRecord {
    pub p: Vec3,
    pub normal: Vec3,
    pub t: Scalar,
    pub front_face: bool,
    pub mat_ptr: usize,
    pub u: Scalar,
    pub v: Scalar,
}

impl HitRecord {
    /// Orients the normal against the ray. `facing` is the dot product of
    /// the ray's direction with `outward_normal`: the ray meets the front
    /// face exactly when it is negative, and the stored normal is then the
    /// outward one, else its negation.
    pub fn set_face_normal(&mut self, facing: Scalar, outward_normal: Vec3)
        ensures
            final(self).front_face == facing.lt_spec(Scalar { bits: 0 }),
            final(self).normal == if final(self).front_face {
                outward_normal
            } else {
                outward_normal.neg_spec()
            },
            final(self).p == old(self).p,
            final(self).t == old(self).t,
            final(self).mat_ptr == old(self).mat_ptr,
            final(self).u == old(self).u,
            final(self).v == old(self).v,
    {
        self.front_face = facing.lt(Scalar::zero());
        if self.front_face {
            self.normal = outward_normal;
        } else {
            self.normal = outward_normal.neg();
        }
    }
}

/// The closest hit of a search: the ray parameter and the object hit.
#[derive(Clone, Copy, Debug, PartialEq, Eq, Structural)]
pub struct Hit {
    pub t: Scalar,
    pub object: usize,
}

/// What a search structure knows of an object: the box around it over the
/// whole exposure (none for an object without finite extent), the box around
/// it at time zero, by which objects are ordered, and its material.
#[derive(Clone, Copy, Debug, PartialEq, Eq, Structural)]
pub struct Object {
    pub extent: Option<AABB>,
    pub anchor: Option<AABB>,
    pub mat_ptr: usize,
}

pub struct HittableList {
    pub objects: Vec<Object>,
}

/// The upper end of the interval still open after `found`.
pub open spec fn closest_so_far(found: Option<Hit>, t_max: Scalar) -> Scalar {
    match found {
        Some(h) => h.t,
        None => t_max,
    }
}

/// The closest hit among the first `count` objects, scanning in order: each
/// object is asked for a hit below the closest found so far, and a hit it
/// reports replaces that one.
pub open spec fn scan_spec(roots: Seq<Roots>, count: int, t_min: Scalar, t_max: Scalar) -> Option<Hit>
    decreases count,
{
    if count <= 0 {
        None
    } else {
        let before = scan_spec(roots, count - 1, t_min, t_max);
        match roots[count - 1].select_spec(t_min, closest_so_far(before, t_max)) {
            Some(t) => Some(Hit { t, object: (count - 1) as usize }),
            None => before,
        }
    }
}

/// Every object has a box.
pub open spec fn all_bounded(objects: Seq<Object>) -> bool {
    forall|i: int| 0 <= i < objects.len() ==> (#[trigger] objects[i]).extent.is_some()
}

/// The box around the first `count` objects, folded from the left.
pub open spec fn fold_boxes(objects: Seq<Object>, count: int) -> AABB
    decreases count,
{
    if count <= 1 {
        objects[0].extent.unwrap()
    } else {
        AABB::surrounding_box_spec(fold_boxes(objects, count - 1), objects[count - 1].extent.unwrap())
    }
}

/// The box around a list: none for an empty list or one with an unbounded
/// object.
pub open spec fn list_box_spec(objects: Seq<Object>) -> Option<AABB> {
    if objects.len() == 0 || !all_bounded(objects) {
        None
    } else {
        Some(fold_boxes(objects, objects.len() as int))
    }
}

impl HittableList {
    pub fn new() -> (list: HittableList)
        ensures
            list.objects@ == Seq::<Object>::empty(),
    {
        HittableList { objects: Vec::new() }
    }

    pub fn clear(&mut self)
        ensures
            final(self).objects@ == Seq::<Object>::empty(),
    {
        self.objects.clear();
    }

    pub fn add(&mut self, object: Object)
        ensures
            final(self).objects@ == old(self).objects@.push(object),
    {
        self.objects.push(object);
    }

    /// The closest hit in `(t_min, t_max)`; `roots[i]` is the solved
    /// quadratic of object `i` for the ray in question.
    pub fn hit(&self, roots: &Vec<Roots>, t_min: Scalar, t_max: Scalar) -> (found: Option<Hit>)
        requires
            roots.len() == self.objects.len(),
        ensures
            found == scan_spec(roots@, roots.len() as int, t_min, t_max),
    {
        let mut hit_rec: Option<Hit> = None;
        let mut closest = t_max;
        let mut i: usize = 0;
        while i < roots.len()
            invariant
                i <= roots.len(),
                hit_rec == scan_spec(roots@, i as int, t_min, t_max),
                closest == closest_so_far(hit_rec, t_max),
            decreases roots.len() - i,
        {
            if let Some(t) = roots[i].select(t_min, closest) {
                closest = t;
                hit_rec = Some(Hit { t, object: i });
            }
            i += 1;
        }
        hit_rec
    }

    pub fn bounding_box(&self) -> (around: Option<AABB>)
        ensures
            around == list_box_spec(self.objects@),
    {
        if self.objects.len() == 0 {
            return None;
        }
        let mut output_box = match self.objects[0].extent {
            Some(first) => first,
            None => {
                return None;
            },
        };
        let mut i: usize = 1;
        while i < self.objects.len()
            invariant
                1 <= i <= self.objects.len(),
                forall|k: int| 0 <= k < i ==> (#[trigger] self.objects@[k]).extent.is_some(),
                output_box == fold_boxes(self.objects@, i as int),
            decreases self.objects.len() - i,
        {
            match self.objects[i].extent {
                Some(temp_box) => {
                    output_box = AABB::surrounding_box(output_box, temp_box);
                },
                None => {
                    return None;
                },
            }
            i += 1;
        }
        Some(output_box)
    }
}

/// The box around the first `count` objects contains the box of each of
/// them.
pub proof fn lemma_fold_boxes_contains(objects: Seq<Object>, count: int, member: int)
    requires
        1 <= count <= objects.len(),
        0 <= member < count,
        forall|i: int| 0 <= i < count ==> (#[trigger] objects[i]).extent.is_some() && objects[i].extent.unwrap().numbers(),
    ensures
        fold_boxes(objects, count).numbers(),
        fold_boxes(objects, count).contains(objects[member].extent.unwrap()),
    decreases count,
{
    if count > 1 {
        let before = fold_boxes(objects, count - 1);
        let last = objects[count - 1].extent.unwrap();
        lemma_fold_boxes_contains(objects, count - 1, if member < count - 1 { member } else { 0 });
        lemma_surrounding_box_contains(before, last);
        if member < count - 1 {
            lemma_contains_transitive(fold_boxes(objects, count), before, objects[member].extent.unwrap());
        }
    } else {
        let only = objects[0].extent.unwrap();
        assert(only.numbers());
        assert forall|axis: int| 0 <= axis < 3 implies (#[trigger] only.min.at(axis)).le_spec(only.min.at(axis))
            && only.max.at(axis).le_spec(only.max.at(axis)) by {
            assert(axis == 0 || axis == 1 || axis == 2);
        }
    }
}

} // verus!
