//! Ordering objects along an axis.
//!
//! Objects are ordered by the smallest coordinate of their box at time zero
//! along a chosen axis. Comparing needs both boxes, and numbers in them: an
//! object without a box, or with a NaN there, cannot be ordered.
use crate::bvh::BvhNode;
use crate::hittable::Object;
use crate::scalar::Scalar;
use std::cmp::Ordering;
use vstd::prelude::*;
use vstd::seq_lib::{to_multiset_build, to_multiset_insert};

verus! {

/// The number an object is ordered by along `axis`.
pub open spec fn anchor_key(object: Object, axis: usize) -> Scalar {
    object.anchor.unwrap().min.at(axis as int)
}

/// The object can be ordered along `axis`.
pub open spec fn comparable(object: Object, axis: usize) -> bool {
    object.anchor.is_some() && !anchor_key(object, axis).nan()
}

/// Every listed object exists and can be ordered along `axis`.
pub open spec fn all_comparable(objects: Seq<Object>, members: Seq<usize>, axis: usize) -> bool {
    forall|k: int|
        0 <= k < members.len() ==> (#[trigger] members[k]) < objects.len() && comparable(
            objects[members[k] as int],
            axis,
        )
}

/// Object `a` does not come after object `b` along `axis`.
pub open spec fn not_after(objects: Seq<Object>, a: usize, b: usize, axis: usize) -> bool {
    !anchor_key(objects[b as int], axis).lt_spec(anchor_key(objects[a as int], axis))
}

/// The listed objects stand in ascending order along `axis`.
pub open spec fn ascending(objects: Seq<Object>, order: Seq<usize>, axis: usize) -> bool {
    forall|i: int, j: int| 0 <= i < j < order.len() ==> not_after(objects, #[trigger] order[i], #[trigger] order[j], axis)
}

/// The first `n` entries.
pub open spec fn prefix(s: Seq<usize>, n: usize) -> Seq<usize> {
    s.subrange(0, n as int)
}

impl BvhNode {
    /// Compares two objects along `axis`, which is `0`, `1` or `2`.
    pub fn box_cmp(a: &Object, b: &Object, axis: usize) -> (o: Ordering)
        requires
            axis < 3,
            comparable(*a, axis),
            comparable(*b, axis),
        ensures
            (o == Ordering::Less) == anchor_key(*a, axis).lt_spec(anchor_key(*b, axis)),
            (o == Ordering::Equal) == anchor_key(*a, axis).same_spec(anchor_key(*b, axis)),
            (o == Ordering::Greater) == anchor_key(*b, axis).lt_spec(anchor_key(*a, axis)),
    {
        let box_a = a.anchor.unwrap();
        let box_b = b.anchor.unwrap();
        let key_a = box_a.min.index(axis).ord_key();
        let key_b = box_b.min.index(axis).ord_key();
        if key_a < key_b {
            Ordering::Less
        } else if key_a == key_b {
            Ordering::Equal
        } else {
            Ordering::Greater
        }
    }

    pub fn x_cmp(a: &Object, b: &Object) -> (o: Ordering)
        requires
            comparable(*a, 0),
            comparable(*b, 0),
        ensures
            (o == Ordering::Less) == anchor_key(*a, 0).lt_spec(anchor_key(*b, 0)),
            (o == Ordering::Equal) == anchor_key(*a, 0).same_spec(anchor_key(*b, 0)),
            (o == Ordering::Greater) == anchor_key(*b, 0).lt_spec(anchor_key(*a, 0)),
    {
        BvhNode::box_cmp(a, b, 0)
    }

    pub fn y_cmp(a: &Object, b: &Object) -> (o: Ordering)
        requires
            comparable(*a, 1),
            comparable(*b, 1),
        ensures
            (o == Ordering::Less) == anchor_key(*a, 1).lt_spec(anchor_key(*b, 1)),
            (o == Ordering::Equal) == anchor_key(*a, 1).same_spec(anchor_key(*b, 1)),
            (o == Ordering::Greater) == anchor_key(*b, 1).lt_spec(anchor_key(*a, 1)),
    {
        BvhNode::box_cmp(a, b, 1)
    }

    pub fn z_cmp(a: &Object, b: &Object) -> (o: Ordering)
        requires
            comparable(*a, 2),
            comparable(*b, 2),
        ensures
            (o == Ordering::Less) == anchor_key(*a, 2).lt_spec(anchor_key(*b, 2)),
            (o == Ordering::Equal) == anchor_key(*a, 2).same_spec(anchor_key(*b, 2)),
            (o == Ordering::Greater) == anchor_key(*b, 2).lt_spec(anchor_key(*a, 2)),
    {
        BvhNode::box_cmp(a, b, 2)
    }
}

/// Whether `a` comes strictly before `b` along `axis`, by the comparator of
/// that axis.
pub fn comes_before(a: &Object, b: &Object, axis: usize) -> (before: bool)
    requires
        axis < 3,
        comparable(*a, axis),
        comparable(*b, axis),
    ensures
        before == anchor_key(*a, axis).lt_spec(anchor_key(*b, axis)),
{
    let o = if axis == 0 {
        BvhNode::x_cmp(a, b)
    } else if axis == 1 {
        BvhNode::y_cmp(a, b)
    } else {
        BvhNode::z_cmp(a, b)
    };
    match o {
        Ordering::Less => true,
        _ => false,
    }
}

/// Sorts the listed objects along `axis`.
pub fn sort_along(objects: &Vec<Object>, members: &Vec<usize>, axis: usize) -> (sorted: Vec<usize>)
    requires
        axis < 3,
        all_comparable(objects@, members@, axis),
    ensures
        sorted@.to_multiset() == members@.to_multiset(),
        sorted@.len() == members@.len(),
        ascending(objects@, sorted@, axis),
        all_comparable(objects@, sorted@, axis),
{
    let mut sorted: Vec<usize> = Vec::new();
    let mut i: usize = 0;
    assert(prefix(members@, 0) =~= Seq::<usize>::empty());
    while i < members.len()
        invariant
            axis < 3,
            i <= members.len(),
            all_comparable(objects@, members@, axis),
            all_comparable(objects@, sorted@, axis),
            sorted@.len() == i,
            sorted@.to_multiset() == prefix(members@, i).to_multiset(),
            ascending(objects@, sorted@, axis),
        decreases members.len() - i,
    {
        let m = members[i];
        let mut p: usize = sorted.len();
        while p > 0 && comes_before(&objects[m], &objects[sorted[p - 1]], axis)
            invariant
                axis < 3,
                p <= sorted.len(),
                m == members@[i as int],
                i < members.len(),
                all_comparable(objects@, members@, axis),
                all_comparable(objects@, sorted@, axis),
                forall|k: int| p <= k < sorted@.len() ==> anchor_key(objects@[m as int], axis).lt_spec(anchor_key(objects@[#[trigger] sorted@[k] as int], axis)),
            decreases p,
        {
            p -= 1;
        }
        proof {
            let before = sorted@;
            let after = before.insert(p as int, m);
            to_multiset_insert(before, p as int, m);
            assert(prefix(members@, (i + 1) as usize) =~= prefix(members@, i).push(m));
            to_multiset_build(prefix(members@, i), m);
            assert forall|a: int, b: int| 0 <= a < b < after.len() implies not_after(objects@, #[trigger] after[a], #[trigger] after[b], axis) by {
                if a < p && b > p {
                    assert(not_after(objects@, before[a], before[b - 1], axis));
                } else if a < p && b == p {
                    if a == p - 1 {
                    } else {
                        assert(not_after(objects@, before[a], before[p - 1], axis));
                    }
                } else if a == p {
                    assert(after[b] == before[b - 1]);
                } else if a > p {
                    assert(not_after(objects@, before[a - 1], before[b - 1], axis));
                } else {
                    assert(not_after(objects@, before[a], before[b], axis));
                }
            }
            assert forall|k: int| 0 <= k < after.len() implies (#[trigger] after[k]) < objects@.len() && comparable(objects@[after[k] as int], axis) by {
                if k < p {
                    assert(after[k] == before[k]);
                } else if k > p {
                    assert(after[k] == before[k - 1]);
                }
            }
        }
        sorted.insert(p, m);
        i += 1;
    }
    assert(prefix(members@, i) =~= members@);
    sorted
}

} // verus!
