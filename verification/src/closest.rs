//! What the searches find.
//!
//! A search over a set of objects finds a closest hit: an object of the set
//! whose own hit in the interval is at least as near as every other's, or
//! nothing when no object of the set is hit. The flat list finds one, and so
//! does the hierarchy as long as its boxes do not hide a hit; so the two
//! agree on the distance, and on the object wherever a single object is
//! closest.
use crate::aabb::{Slab, AABB};
use crate::bvh::{child_hit, linked, reach, BvhNode, Child, Node};
use crate::construct::span_of;
use crate::hittable::{closest_so_far, scan_spec, Hit, Object};
use crate::scalar::Scalar;
use crate::sphere::{lemma_select_shortened, Roots};
use vstd::prelude::*;
use vstd::seq_lib::{to_multiset_contains, to_multiset_len};

verus! {

/// `found` is a closest hit among the objects in `among`.
pub open spec fn is_closest(roots: Seq<Roots>, among: Set<usize>, t_min: Scalar, t_max: Scalar, found: Option<Hit>) -> bool {
    match found {
        None => forall|j: usize| among.contains(j) ==> (#[trigger] roots[j as int]).select_spec(t_min, t_max).is_none(),
        Some(h) => {
            &&& among.contains(h.object)
            &&& roots[h.object as int].select_spec(t_min, t_max) == Some(h.t)
            &&& forall|j: usize|
                among.contains(j) ==> match (#[trigger] roots[j as int]).select_spec(t_min, t_max) {
                    Some(t) => !t.lt_spec(h.t),
                    None => true,
                }
        },
    }
}

/// Every object in `among` has its far root not below its near root.
pub open spec fn all_ordered(roots: Seq<Roots>, among: Set<usize>) -> bool {
    forall|j: usize| among.contains(j) ==> (#[trigger] roots[j as int]).ordered()
}

/// The objects numbered below `count`.
pub open spec fn below(count: int) -> Set<usize> {
    Set::new(|j: usize| j < count)
}

/// No box hides a hit: whenever an object below a node is hit within
/// `(t_min, closer)`, the ray passes through the node's box within that
/// interval.
pub open spec fn conservative(nodes: Seq<Node>, slabs: Seq<[Slab; 3]>, roots: Seq<Roots>, t_min: Scalar) -> bool {
    forall|k: usize, j: usize, closer: Scalar|
        k < nodes.len() && #[trigger] reach(nodes, Child::Node(k)).contains(j) && (#[trigger] roots[j as int].select_spec(
            t_min,
            closer,
        )).is_some() ==> AABB::hit_spec(slabs[k as int]@, t_min, closer)
}

/// What a search holds after a part of it reported `reported`.
pub open spec fn merged(found: Option<Hit>, reported: Option<Hit>) -> Option<Hit> {
    if reported.is_some() {
        reported
    } else {
        found
    }
}

/// Asking one more object for a hit below the closest so far keeps the
/// closest hit closest.
pub proof fn lemma_closest_absorb(roots: Seq<Roots>, among: Set<usize>, j: usize, t_min: Scalar, t_max: Scalar, found: Option<Hit>)
    requires
        is_closest(roots, among, t_min, t_max, found),
        roots[j as int].ordered(),
    ensures
        is_closest(
            roots,
            among.insert(j),
            t_min,
            t_max,
            match roots[j as int].select_spec(t_min, closest_so_far(found, t_max)) {
                Some(t) => Some(Hit { t, object: j }),
                None => found,
            },
        ),
{
    let wide = roots[j as int].select_spec(t_min, t_max);
    match found {
        None => {
            match wide {
                Some(t) => {
                    assert forall|k: usize| among.insert(j).contains(k) implies match (#[trigger] roots[k as int]).select_spec(t_min, t_max) {
                        Some(s) => !s.lt_spec(t),
                        None => true,
                    } by {
                        if k != j {
                            assert(among.contains(k));
                        }
                    }
                },
                None => {
                    assert forall|k: usize| among.insert(j).contains(k) implies (#[trigger] roots[k as int]).select_spec(t_min, t_max).is_none() by {
                        if k != j {
                            assert(among.contains(k));
                        }
                    }
                },
            }
        },
        Some(h) => {
            lemma_select_shortened(roots[j as int], t_min, t_max, h.t);
            match roots[j as int].select_spec(t_min, h.t) {
                Some(t) => {
                    assert forall|k: usize| among.insert(j).contains(k) implies match (#[trigger] roots[k as int]).select_spec(t_min, t_max) {
                        Some(s) => !s.lt_spec(t),
                        None => true,
                    } by {
                        if k != j {
                            assert(among.contains(k));
                        }
                    }
                },
                None => {
                    assert forall|k: usize| among.insert(j).contains(k) implies match (#[trigger] roots[k as int]).select_spec(t_min, t_max) {
                        Some(s) => !s.lt_spec(h.t),
                        None => true,
                    } by {
                        if k != j {
                            assert(among.contains(k));
                        }
                    }
                },
            }
        },
    }
}

/// Objects that have no hit below the closest so far can be left out of the
/// search.
pub proof fn lemma_closest_skip(roots: Seq<Roots>, among: Set<usize>, skipped: Set<usize>, t_min: Scalar, t_max: Scalar, found: Option<Hit>)
    requires
        is_closest(roots, among, t_min, t_max, found),
        all_ordered(roots, skipped),
        forall|j: usize| skipped.contains(j) ==> (#[trigger] roots[j as int]).select_spec(t_min, closest_so_far(found, t_max)).is_none(),
    ensures
        is_closest(roots, among + skipped, t_min, t_max, found),
{
    match found {
        None => {
            assert forall|k: usize| (among + skipped).contains(k) implies (#[trigger] roots[k as int]).select_spec(t_min, t_max).is_none() by {
                if !among.contains(k) {
                    assert(skipped.contains(k));
                }
            }
        },
        Some(h) => {
            assert forall|k: usize| (among + skipped).contains(k) implies match (#[trigger] roots[k as int]).select_spec(t_min, t_max) {
                Some(s) => !s.lt_spec(h.t),
                None => true,
            } by {
                if !among.contains(k) {
                    assert(skipped.contains(k));
                    lemma_select_shortened(roots[k as int], t_min, t_max, h.t);
                }
            }
        },
    }
}

/// Two closest hits among the same objects are both there or both not, and
/// lie at the same distance.
pub proof fn lemma_closest_agree(roots: Seq<Roots>, among: Set<usize>, t_min: Scalar, t_max: Scalar, a: Option<Hit>, b: Option<Hit>)
    requires
        is_closest(roots, among, t_min, t_max, a),
        is_closest(roots, among, t_min, t_max, b),
    ensures
        a.is_some() == b.is_some(),
        a.is_some() ==> a.unwrap().t.same_spec(b.unwrap().t),
{
    if a.is_some() {
        let h = a.unwrap();
        assert(roots[h.object as int].select_spec(t_min, t_max).is_some());
    }
    if b.is_some() {
        let h = b.unwrap();
        assert(roots[h.object as int].select_spec(t_min, t_max).is_some());
    }
}

/// The flat list finds a closest hit among its objects.
pub proof fn lemma_scan_closest(roots: Seq<Roots>, count: int, t_min: Scalar, t_max: Scalar)
    requires
        0 <= count <= roots.len() <= usize::MAX,
        all_ordered(roots, below(count)),
    ensures
        is_closest(roots, below(count), t_min, t_max, scan_spec(roots, count, t_min, t_max)),
    decreases count,
{
    if count > 0 {
        let j = (count - 1) as usize;
        let before = scan_spec(roots, count - 1, t_min, t_max);
        assert forall|k: usize| below(count - 1).contains(k) implies (#[trigger] roots[k as int]).ordered() by {
            assert(below(count).contains(k));
        }
        lemma_scan_closest(roots, count - 1, t_min, t_max);
        assert(below(count).contains(j));
        lemma_closest_absorb(roots, below(count - 1), j, t_min, t_max, before);
        assert(below(count - 1).insert(j) =~= below(count));
    }
}

/// The order of the objects in a list does not matter to the distance of
/// the hit: two lists that hold the same solved quadratics, in any order,
/// find a hit or none together, and at the same distance.
pub proof fn lemma_scan_order_irrelevant(one: Seq<Roots>, other: Seq<Roots>, t_min: Scalar, t_max: Scalar)
    requires
        one.to_multiset() == other.to_multiset(),
        one.len() <= usize::MAX,
        all_ordered(one, below(one.len() as int)),
    ensures
        ({
            let in_one = scan_spec(one, one.len() as int, t_min, t_max);
            let in_other = scan_spec(other, other.len() as int, t_min, t_max);
            &&& in_one.is_some() == in_other.is_some()
            &&& in_one.is_some() ==> in_one.unwrap().t.same_spec(in_other.unwrap().t)
        }),
{
    let in_one = scan_spec(one, one.len() as int, t_min, t_max);
    let in_other = scan_spec(other, other.len() as int, t_min, t_max);
    to_multiset_len(one);
    to_multiset_len(other);
    assert(one.len() == other.len());
    assert forall|j: usize| below(other.len() as int).contains(j) implies (#[trigger] other[j as int]).ordered() by {
        assert(other.contains(other[j as int]));
        lemma_shared(other, one, other[j as int]);
        let i = choose|i: int| 0 <= i < one.len() && one[i] == other[j as int];
        assert(below(one.len() as int).contains(i as usize));
        assert(one[i as usize as int].ordered());
    }
    lemma_scan_closest(one, one.len() as int, t_min, t_max);
    lemma_scan_closest(other, other.len() as int, t_min, t_max);
    lemma_closest_carries(one, other, t_min, t_max, in_one, in_other);
    lemma_closest_carries(other, one, t_min, t_max, in_other, in_one);
}

/// What one row holds, a row with the same entries holds too.
proof fn lemma_shared(one: Seq<Roots>, other: Seq<Roots>, entry: Roots)
    requires
        one.to_multiset() == other.to_multiset(),
        one.contains(entry),
    ensures
        other.contains(entry),
{
    to_multiset_contains(one, entry);
    to_multiset_contains(other, entry);
}

/// A closest hit of one list is not beaten by the closest hit of a list that
/// holds the same solved quadratics.
proof fn lemma_closest_carries(one: Seq<Roots>, other: Seq<Roots>, t_min: Scalar, t_max: Scalar, a: Option<Hit>, b: Option<Hit>)
    requires
        one.to_multiset() == other.to_multiset(),
        one.len() == other.len(),
        one.len() <= usize::MAX,
        is_closest(one, below(one.len() as int), t_min, t_max, a),
        is_closest(other, below(other.len() as int), t_min, t_max, b),
    ensures
        a.is_some() ==> b.is_some() && !a.unwrap().t.lt_spec(b.unwrap().t) && !a.unwrap().t.nan(),
{
    if a.is_some() {
        let h = a.unwrap();
        let winner = one[h.object as int];
        assert(one.contains(winner));
        lemma_shared(one, other, winner);
        let j = choose|j: int| 0 <= j < other.len() && other[j] == winner;
        assert(below(other.len() as int).contains(j as usize));
        assert(other[j as usize as int].select_spec(t_min, t_max) == Some(h.t));
        if b.is_some() {
            let g = b.unwrap();
            let rival = other[g.object as int];
            assert(other.contains(rival));
            lemma_shared(other, one, rival);
            let i = choose|i: int| 0 <= i < one.len() && one[i] == rival;
            assert(below(one.len() as int).contains(i as usize));
            assert(one[i as usize as int].select_spec(t_min, t_max) == Some(g.t));
        }
    }
}

/// Searching below a child of the hierarchy for a hit below the closest so
/// far keeps the closest hit closest, if no box hides a hit.
pub proof fn lemma_child_closest(
    nodes: Seq<Node>,
    slabs: Seq<[Slab; 3]>,
    roots: Seq<Roots>,
    child: Child,
    t_min: Scalar,
    t_max: Scalar,
    among: Set<usize>,
    found: Option<Hit>,
)
    requires
        linked(nodes, roots.len() as int),
        child.valid(nodes.len() as int, roots.len() as int),
        all_ordered(roots, reach(nodes, child)),
        conservative(nodes, slabs, roots, t_min),
        is_closest(roots, among, t_min, t_max, found),
    ensures
        is_closest(
            roots,
            among + reach(nodes, child),
            t_min,
            t_max,
            merged(found, child_hit(nodes, slabs, roots, child, t_min, closest_so_far(found, t_max))),
        ),
    decreases child.rank(),
{
    let closer = closest_so_far(found, t_max);
    match child {
        Child::Object(i) => {
            assert(reach(nodes, child).contains(i));
            lemma_closest_absorb(roots, among, i, t_min, t_max, found);
            assert(among.insert(i) =~= among + reach(nodes, child));
        },
        Child::Node(k) => {
            let node = nodes[k as int];
            assert(node.left.valid(k as int, roots.len() as int) && node.right.valid(k as int, roots.len() as int));
            if !AABB::hit_spec(slabs[k as int]@, t_min, closer) {
                assert forall|j: usize| reach(nodes, child).contains(j) implies (#[trigger] roots[j as int]).select_spec(t_min, closer).is_none() by {
                    if roots[j as int].select_spec(t_min, closer).is_some() {
                        assert(reach(nodes, Child::Node(k)).contains(j));
                    }
                }
                lemma_closest_skip(roots, among, reach(nodes, child), t_min, t_max, found);
            } else {
                let left = child_hit(nodes, slabs, roots, node.left, t_min, closer);
                let after_left = merged(found, left);
                assert forall|j: usize| reach(nodes, node.left).contains(j) implies (#[trigger] roots[j as int]).ordered() by {
                    assert(reach(nodes, child).contains(j));
                }
                assert forall|j: usize| reach(nodes, node.right).contains(j) implies (#[trigger] roots[j as int]).ordered() by {
                    assert(reach(nodes, child).contains(j));
                }
                lemma_child_closest(nodes, slabs, roots, node.left, t_min, t_max, among, found);
                assert(closest_so_far(after_left, t_max) == closest_so_far(left, closer));
                lemma_child_closest(
                    nodes,
                    slabs,
                    roots,
                    node.right,
                    t_min,
                    t_max,
                    among + reach(nodes, node.left),
                    after_left,
                );
                assert(among + reach(nodes, node.left) + reach(nodes, node.right) =~= among + reach(nodes, child));
            }
        },
    }
}

/// The hierarchy finds a closest hit among the objects below its root, if no
/// box hides a hit.
pub proof fn lemma_hierarchy_closest(tree: BvhNode, slabs: Seq<[Slab; 3]>, roots: Seq<Roots>, t_min: Scalar, t_max: Scalar)
    requires
        tree.wf(roots.len() as int),
        tree.root_spec().is_some(),
        all_ordered(roots, reach(tree.nodes@, tree.root_spec().unwrap())),
        conservative(tree.nodes@, slabs, roots, t_min),
    ensures
        is_closest(
            roots,
            reach(tree.nodes@, tree.root_spec().unwrap()),
            t_min,
            t_max,
            tree.hit_spec(slabs, roots, t_min, t_max),
        ),
{
    let root = tree.root_spec().unwrap();
    let nothing = Set::<usize>::empty();
    assert(is_closest(roots, nothing, t_min, t_max, None));
    lemma_child_closest(tree.nodes@, slabs, roots, root, t_min, t_max, nothing, None);
    assert(nothing + reach(tree.nodes@, root) =~= reach(tree.nodes@, root));
}

/// The objects numbered from `0` up to `count` are those numbered below
/// `count`.
pub proof fn lemma_span_below(count: int)
    requires
        0 <= count <= usize::MAX,
    ensures
        span_of(0, count).to_set() == below(count),
{
    let s = span_of(0, count);
    assert forall|j: usize| s.contains(j) == (j < count) by {
        if j < count {
            assert(s[j as int] == j);
        }
        if s.contains(j) {
            let i = choose|i: int| 0 <= i < s.len() && s[i] == j;
        }
    }
    assert(s.to_set() =~= below(count));
}

/// A hierarchy built over a list answers every ray as the list does: both
/// find a hit or neither does, the hits lie at the same distance, and they
/// are the same hit where no other object is hit at that distance. This
/// holds for rays whose boxes hide no hit and whose roots are ordered.
pub proof fn lemma_hierarchy_matches_list(
    tree: BvhNode,
    objects: Seq<Object>,
    slabs: Seq<[Slab; 3]>,
    roots: Seq<Roots>,
    t_min: Scalar,
    t_max: Scalar,
)
    requires
        tree.covers(objects, 0, objects.len() as int),
        roots.len() == objects.len(),
        objects.len() <= usize::MAX,
        all_ordered(roots, below(roots.len() as int)),
        conservative(tree.nodes@, slabs, roots, t_min),
    ensures
        ({
            let in_tree = tree.hit_spec(slabs, roots, t_min, t_max);
            let in_list = scan_spec(roots, roots.len() as int, t_min, t_max);
            &&& in_tree.is_some() == in_list.is_some()
            &&& in_tree.is_some() ==> in_tree.unwrap().t.same_spec(in_list.unwrap().t)
            &&& in_tree.is_some() && (forall|j: usize|
                j < roots.len() && j != in_list.unwrap().object ==> match (#[trigger] roots[j as int]).select_spec(
                    t_min,
                    t_max,
                ) {
                    Some(t) => !t.same_spec(in_list.unwrap().t),
                    None => true,
                }) ==> in_tree == in_list
        }),
{
    let count = roots.len() as int;
    let in_tree = tree.hit_spec(slabs, roots, t_min, t_max);
    let in_list = scan_spec(roots, count, t_min, t_max);
    lemma_scan_closest(roots, count, t_min, t_max);
    if count == 0 {
        assert(tree.root_spec().is_none());
    } else {
        lemma_span_below(count);
        lemma_hierarchy_closest(tree, slabs, roots, t_min, t_max);
        lemma_closest_agree(roots, below(count), t_min, t_max, in_tree, in_list);
        if in_tree.is_some() {
            let a = in_tree.unwrap();
            let b = in_list.unwrap();
            assert(below(count).contains(a.object));
            if a.object != b.object {
                assert(roots[a.object as int].select_spec(t_min, t_max) == Some(a.t));
            }
        }
    }
}

} // verus!
