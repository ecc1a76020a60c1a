//! Searching a hierarchy one test at a time.
//!
//! Seeing a box or an object from a ray takes arithmetic that this library
//! leaves to its caller, and a hierarchy pays off only if most boxes and
//! objects are never looked at. So the search is a machine: it says which
//! child it wants tested next and over which interval, the caller tests it
//! and feeds the answer back, until nothing is left to test.
use crate::aabb::{Slab, AABB};
use crate::bvh::{child_hit, linked, BvhNode, Child, Node};
use crate::closest::merged;
use crate::hittable::{closest_so_far, Hit};
use crate::scalar::Scalar;
use crate::sphere::Roots;
use vstd::prelude::*;

verus! {

/// A search under way: the children still to be tested, the last of them
/// next, the interval asked for, and the closest hit so far.
pub struct Traversal {
    pub pending: Vec<Child>,
    pub t_min: Scalar,
    pub t_max: Scalar,
    pub found: Option<Hit>,
}

/// What a search that still has `pending` to test and has found `found`
/// ends with, for the ray that sees the hierarchy as `slabs` and `roots`.
pub open spec fn settle(
    nodes: Seq<Node>,
    slabs: Seq<[Slab; 3]>,
    roots: Seq<Roots>,
    pending: Seq<Child>,
    t_min: Scalar,
    t_max: Scalar,
    found: Option<Hit>,
) -> Option<Hit>
    decreases pending.len(),
{
    if pending.len() == 0 {
        found
    } else {
        let reported = child_hit(nodes, slabs, roots, pending.last(), t_min, closest_so_far(found, t_max));
        settle(nodes, slabs, roots, pending.drop_last(), t_min, t_max, merged(found, reported))
    }
}

/// The children left to test after the box of the node on top was seen as
/// `slabs`: without the node if the ray misses the box, and with its right
/// and then its left child in its place if not.
pub open spec fn pending_after_box(nodes: Seq<Node>, pending: Seq<Child>, slabs: Seq<Slab>, t_min: Scalar, closer: Scalar) -> Seq<Child> {
    let rest = pending.drop_last();
    match pending.last() {
        Child::Node(k) => if AABB::hit_spec(slabs, t_min, closer) {
            rest.push(nodes[k as int].right).push(nodes[k as int].left)
        } else {
            rest
        },
        Child::Object(_) => rest,
    }
}

/// The closest hit after the object on top answered with `roots`.
pub open spec fn found_after_object(pending: Seq<Child>, roots: Roots, t_min: Scalar, t_max: Scalar, found: Option<Hit>) -> Option<Hit> {
    match pending.last() {
        Child::Object(i) => match roots.select_spec(t_min, closest_so_far(found, t_max)) {
            Some(t) => Some(Hit { t, object: i }),
            None => found,
        },
        Child::Node(_) => found,
    }
}

impl BvhNode {
    /// Begins a search over `(t_min, t_max)` at the root.
    pub fn start(&self, t_min: Scalar, t_max: Scalar) -> (search: Traversal)
        ensures
            search.pending@ == match self.root_spec() {
                Some(root) => seq![root],
                None => Seq::<Child>::empty(),
            },
            search.t_min == t_min,
            search.t_max == t_max,
            search.found.is_none(),
    {
        let mut pending: Vec<Child> = Vec::new();
        if let Some(root) = self.root() {
            pending.push(root);
        }
        Traversal { pending, t_min, t_max, found: None }
    }
}

impl Traversal {
    /// The child to test next; none when the search is over.
    pub fn next(&self) -> (child: Option<Child>)
        ensures
            child == if self.pending@.len() == 0 {
                None
            } else {
                Some(self.pending@.last())
            },
    {
        if self.pending.len() == 0 {
            None
        } else {
            Some(self.pending[self.pending.len() - 1])
        }
    }

    /// The upper end of the interval to test over: the closest hit so far,
    /// or the upper end asked for while there is none.
    pub fn closest(&self) -> (closer: Scalar)
        ensures
            closer == closest_so_far(self.found, self.t_max),
    {
        match self.found {
            Some(h) => h.t,
            None => self.t_max,
        }
    }

    /// Takes the answer for the node on top: how the ray sees its box.
    pub fn feed_box(&mut self, tree: &BvhNode, slabs: &[Slab; 3])
        requires
            old(self).pending@.len() > 0,
            match old(self).pending@.last() {
                Child::Node(k) => k < tree.nodes@.len(),
                Child::Object(_) => false,
            },
        ensures
            final(self).pending@ == pending_after_box(
                tree.nodes@,
                old(self).pending@,
                slabs@,
                old(self).t_min,
                closest_so_far(old(self).found, old(self).t_max),
            ),
            final(self).found == old(self).found,
            final(self).t_min == old(self).t_min,
            final(self).t_max == old(self).t_max,
    {
        let closer = self.closest();
        let top = self.pending.pop();
        if let Some(Child::Node(k)) = top {
            if AABB::hit(slabs, self.t_min, closer) {
                let node = tree.nodes[k];
                self.pending.push(node.right);
                self.pending.push(node.left);
            }
        }
    }

    /// Takes the answer for the object on top: its solved quadratic.
    pub fn feed_object(&mut self, roots: &Roots)
        requires
            old(self).pending@.len() > 0,
            old(self).pending@.last() is Object,
        ensures
            final(self).pending@ == old(self).pending@.drop_last(),
            final(self).found == found_after_object(old(self).pending@, *roots, old(self).t_min, old(self).t_max, old(self).found),
            final(self).t_min == old(self).t_min,
            final(self).t_max == old(self).t_max,
    {
        let closer = self.closest();
        let top = self.pending.pop();
        if let Some(Child::Object(i)) = top {
            if let Some(t) = roots.select(self.t_min, closer) {
                self.found = Some(Hit { t, object: i });
            }
        }
    }

    /// The closest hit found.
    pub fn finish(&self) -> (found: Option<Hit>)
        ensures
            found == self.found,
    {
        self.found
    }
}

/// A search that has just begun ends with the closest hit in the hierarchy.
pub proof fn lemma_start_settles(tree: BvhNode, slabs: Seq<[Slab; 3]>, roots: Seq<Roots>, t_min: Scalar, t_max: Scalar)
    ensures
        settle(
            tree.nodes@,
            slabs,
            roots,
            match tree.root_spec() {
                Some(root) => seq![root],
                None => Seq::<Child>::empty(),
            },
            t_min,
            t_max,
            None,
        ) == tree.hit_spec(slabs, roots, t_min, t_max),
{
    match tree.root_spec() {
        Some(root) => {
            let pending = seq![root];
            assert(pending.last() == root);
            assert(pending.drop_last() =~= Seq::<Child>::empty());
            let reported = child_hit(tree.nodes@, slabs, roots, root, t_min, t_max);
            assert(settle(tree.nodes@, slabs, roots, pending.drop_last(), t_min, t_max, merged(None, reported)) == merged(
                None,
                reported,
            ));
        },
        None => {},
    }
}

/// Feeding the search what the ray sees of the object on top does not
/// change what the search ends with.
pub proof fn lemma_feed_object_settles(
    nodes: Seq<Node>,
    slabs: Seq<[Slab; 3]>,
    roots: Seq<Roots>,
    pending: Seq<Child>,
    t_min: Scalar,
    t_max: Scalar,
    found: Option<Hit>,
)
    requires
        pending.len() > 0,
        pending.last() is Object,
    ensures
        settle(
            nodes,
            slabs,
            roots,
            pending.drop_last(),
            t_min,
            t_max,
            found_after_object(pending, roots[pending.last()->Object_0 as int], t_min, t_max, found),
        ) == settle(nodes, slabs, roots, pending, t_min, t_max, found),
{
}

/// Feeding the search what the ray sees of the box on top does not change
/// what the search ends with.
pub proof fn lemma_feed_box_settles(
    nodes: Seq<Node>,
    slabs: Seq<[Slab; 3]>,
    roots: Seq<Roots>,
    pending: Seq<Child>,
    t_min: Scalar,
    t_max: Scalar,
    found: Option<Hit>,
)
    requires
        linked(nodes, roots.len() as int),
        pending.len() > 0,
        match pending.last() {
            Child::Node(k) => k < nodes.len(),
            Child::Object(_) => false,
        },
    ensures
        settle(
            nodes,
            slabs,
            roots,
            pending_after_box(nodes, pending, slabs[pending.last()->Node_0 as int]@, t_min, closest_so_far(found, t_max)),
            t_min,
            t_max,
            found,
        ) == settle(nodes, slabs, roots, pending, t_min, t_max, found),
{
    let k = pending.last()->Node_0;
    let node = nodes[k as int];
    let rest = pending.drop_last();
    let closer = closest_so_far(found, t_max);
    assert(node.left.valid(k as int, roots.len() as int) && node.right.valid(k as int, roots.len() as int));
    if AABB::hit_spec(slabs[k as int]@, t_min, closer) {
        let left = child_hit(nodes, slabs, roots, node.left, t_min, closer);
        let after_left = merged(found, left);
        let right = child_hit(nodes, slabs, roots, node.right, t_min, closest_so_far(after_left, t_max));
        let two = rest.push(node.right).push(node.left);
        let one = rest.push(node.right);
        assert(two.last() == node.left);
        assert(two.drop_last() =~= one);
        assert(one.last() == node.right);
        assert(one.drop_last() =~= rest);
        assert(settle(nodes, slabs, roots, two, t_min, t_max, found) == settle(nodes, slabs, roots, one, t_min, t_max, after_left));
        assert(settle(nodes, slabs, roots, one, t_min, t_max, after_left) == settle(
            nodes,
            slabs,
            roots,
            rest,
            t_min,
            t_max,
            merged(after_left, right),
        ));
        assert(closest_so_far(after_left, t_max) == closest_so_far(left, closer));
        assert(merged(after_left, right) == merged(found, child_hit(nodes, slabs, roots, pending.last(), t_min, closer)));
    }
}

/// How many tests the search below `child` can take at most: one for an
/// object, and for a node one more than for its two children together.
pub open spec fn tests_below(nodes: Seq<Node>, child: Child) -> nat
    decreases child.rank(),
{
    match child {
        Child::Object(_) => 1,
        Child::Node(k) => if k >= nodes.len() {
            1
        } else {
            let left = if nodes[k as int].left.rank() <= k {
                tests_below(nodes, nodes[k as int].left)
            } else {
                0
            };
            let right = if nodes[k as int].right.rank() <= k {
                tests_below(nodes, nodes[k as int].right)
            } else {
                0
            };
            1 + left + right
        },
    }
}

/// How many tests a search with `pending` left can still take at most.
pub open spec fn tests_left(nodes: Seq<Node>, pending: Seq<Child>) -> nat
    decreases pending.len(),
{
    if pending.len() == 0 {
        0
    } else {
        tests_below(nodes, pending.last()) + tests_left(nodes, pending.drop_last())
    }
}

/// Every answer fed brings the search nearer its end: the tests it can
/// still take become fewer, so a search over a hierarchy of `n` nodes is over
/// after a bounded number of answers.
pub proof fn lemma_feed_progress(nodes: Seq<Node>, count: int, pending: Seq<Child>, slabs: Seq<Slab>, t_min: Scalar, closer: Scalar)
    requires
        linked(nodes, count),
        pending.len() > 0,
        pending.last().valid(nodes.len() as int, count),
    ensures
        tests_left(nodes, pending.drop_last()) < tests_left(nodes, pending),
        pending.last() is Node ==> tests_left(nodes, pending_after_box(nodes, pending, slabs, t_min, closer)) < tests_left(
            nodes,
            pending,
        ),
{
    let rest = pending.drop_last();
    match pending.last() {
        Child::Node(k) => {
            let node = nodes[k as int];
            assert(node.left.valid(k as int, count) && node.right.valid(k as int, count));
            let one = rest.push(node.right);
            let two = one.push(node.left);
            assert(two.last() == node.left);
            assert(two.drop_last() =~= one);
            assert(one.last() == node.right);
            assert(one.drop_last() =~= rest);
            assert(tests_left(nodes, two) == tests_below(nodes, node.left) + tests_left(nodes, one));
            assert(tests_left(nodes, one) == tests_below(nodes, node.right) + tests_left(nodes, rest));
        },
        Child::Object(_) => {},
    }
}

} // verus!
