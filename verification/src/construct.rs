//! Building a hierarchy.
//!
//! A node over one object has that object as both children. A node over two
//! has the one that comes first along the node's axis on the left. A node
//! over more sorts its objects along the axis, cuts the row in the middle
//! and hangs a hierarchy over each half below itself. The axis is drawn at
//! random for every node.
use crate::aabb::AABB;
use crate::bvh::{
    boxed, child_box, lemma_reach_extended, lemma_weight_extended, linked, reach, weight, BvhNode, Child, Node,
};
use crate::hittable::{HittableList, Object};
use crate::split::{all_comparable, comes_before, not_after, sort_along};
use crate::utility::random_int;
use vstd::prelude::*;
use vstd::seq_lib::to_multiset_contains;

verus! {

/// Every listed object exists and has a box.
pub open spec fn all_extended(objects: Seq<Object>, members: Seq<usize>) -> bool {
    forall|k: int|
        0 <= k < members.len() ==> (#[trigger] members[k]) < objects.len() && objects[members[k] as int].extent.is_some()
}

/// The listed objects can be ordered along every axis.
pub open spec fn sortable(objects: Seq<Object>, members: Seq<usize>) -> bool {
    forall|axis: usize| axis < 3 ==> #[trigger] all_comparable(objects, members, axis)
}

/// Along `axis`, nothing below node `k`'s left child comes after anything
/// below its right child.
#[verifier::opaque]
pub open spec fn divided_along(nodes: Seq<Node>, objects: Seq<Object>, k: int, axis: usize) -> bool {
    forall|a: usize, b: usize|
        #[trigger] reach(nodes, nodes[k].left).contains(a) && #[trigger] reach(nodes, nodes[k].right).contains(b)
            ==> not_after(objects, a, b, axis)
}

/// Node `k` divides its objects along one of the three axes.
pub open spec fn divided(nodes: Seq<Node>, objects: Seq<Object>, k: int) -> bool {
    exists|axis: usize| axis < 3 && #[trigger] divided_along(nodes, objects, k, axis)
}

/// Node `k` has two objects as children, or two nodes of which the left
/// holds half of the objects, rounded down.
pub open spec fn halved(nodes: Seq<Node>, k: int) -> bool {
    match nodes[k].left {
        Child::Object(_) => nodes[k].right is Object,
        Child::Node(_) => nodes[k].right is Node && weight(nodes, nodes[k].left) == (weight(nodes, nodes[k].left)
            + weight(nodes, nodes[k].right)) / 2,
    }
}

/// A hierarchy over `objects`: children are objects of the list or earlier
/// nodes, every box is the box around the two children's boxes, and every
/// node divides its objects along an axis, in the middle.
pub open spec fn built(nodes: Seq<Node>, objects: Seq<Object>) -> bool {
    &&& linked(nodes, objects.len() as int)
    &&& boxed(nodes, objects)
    &&& forall|k: int| 0 <= k < nodes.len() ==> #[trigger] divided(nodes, objects, k)
    &&& forall|k: int| 0 <= k < nodes.len() ==> #[trigger] halved(nodes, k)
}

/// The indices `start, start + 1, ..` up to `end`.
pub open spec fn span_of(start: int, end: int) -> Seq<usize> {
    Seq::new((end - start) as nat, |i: int| (start + i) as usize)
}

proof fn lemma_same_members(a: Seq<usize>, b: Seq<usize>)
    requires
        a.to_multiset() == b.to_multiset(),
    ensures
        a.to_set() == b.to_set(),
{
    assert forall|x: usize| a.contains(x) == b.contains(x) by {
        to_multiset_contains(a, x);
        to_multiset_contains(b, x);
    }
    assert(a.to_set() =~= b.to_set());
}

proof fn lemma_split_members(s: Seq<usize>, mid: int)
    requires
        0 <= mid <= s.len(),
    ensures
        s.subrange(0, mid).to_set() + s.subrange(mid, s.len() as int).to_set() == s.to_set(),
{
    let low = s.subrange(0, mid);
    let high = s.subrange(mid, s.len() as int);
    assert forall|x: usize| s.contains(x) == (low.contains(x) || high.contains(x)) by {
        if s.contains(x) {
            let i = choose|i: int| 0 <= i < s.len() && s[i] == x;
            if i < mid {
                assert(low[i] == x);
            } else {
                assert(high[i - mid] == x);
            }
        }
        if low.contains(x) {
            let i = choose|i: int| 0 <= i < low.len() && low[i] == x;
            assert(s[i] == x);
        }
        if high.contains(x) {
            let i = choose|i: int| 0 <= i < high.len() && high[i] == x;
            assert(s[i + mid] == x);
        }
    }
    assert((low.to_set() + high.to_set()) =~= s.to_set());
}

proof fn lemma_push_linked(nodes: Seq<Node>, objects: Seq<Object>, node: Node)
    requires
        linked(nodes, objects.len() as int),
        boxed(nodes, objects),
        node.left.valid(nodes.len() as int, objects.len() as int),
        node.right.valid(nodes.len() as int, objects.len() as int),
        node.ab_box == AABB::surrounding_box_spec(
            child_box(nodes, objects, node.left),
            child_box(nodes, objects, node.right),
        ),
    ensures
        linked(nodes.push(node), objects.len() as int),
        boxed(nodes.push(node), objects),
{
    let longer = nodes.push(node);
    let count = objects.len() as int;
    assert forall|k: int| 0 <= k < longer.len() implies (#[trigger] longer[k]).left.valid(k, count)
        && longer[k].right.valid(k, count) by {
        if k < nodes.len() {
            assert(longer[k] == nodes[k]);
        }
    }
    assert forall|k: int| 0 <= k < longer.len() implies (#[trigger] longer[k]).ab_box
        == AABB::surrounding_box_spec(
        child_box(longer, objects, longer[k].left),
        child_box(longer, objects, longer[k].right),
    ) by {
        if k < nodes.len() {
            assert(longer[k] == nodes[k]);
            assert(nodes[k].left.valid(k, count) && nodes[k].right.valid(k, count));
        }
    }
}

proof fn lemma_divided_extended(nodes: Seq<Node>, longer: Seq<Node>, objects: Seq<Object>, k: int)
    requires
        linked(nodes, objects.len() as int),
        nodes.len() <= longer.len(),
        longer.subrange(0, nodes.len() as int) == nodes,
        0 <= k < nodes.len(),
        divided(nodes, objects, k),
    ensures
        divided(longer, objects, k),
{
    let count = objects.len() as int;
    assert(longer[k] == longer.subrange(0, nodes.len() as int)[k]);
    assert(nodes[k].left.valid(k, count) && nodes[k].right.valid(k, count));
    lemma_reach_extended(nodes, longer, count, nodes[k].left);
    lemma_reach_extended(nodes, longer, count, nodes[k].right);
    let along = choose|along: usize| along < 3 && #[trigger] divided_along(nodes, objects, k, along);
    assert(divided_along(longer, objects, k, along)) by {
        reveal(divided_along);
    }
}

/// What hangs below a node just added is what hangs below its children.
proof fn lemma_reach_pushed(nodes: Seq<Node>, objects: Seq<Object>, node: Node)
    requires
        linked(nodes, objects.len() as int),
        nodes.len() < usize::MAX,
        node.left.valid(nodes.len() as int, objects.len() as int),
        node.right.valid(nodes.len() as int, objects.len() as int),
    ensures
        nodes.push(node).subrange(0, nodes.len() as int) == nodes,
        reach(nodes.push(node), node.left) == reach(nodes, node.left),
        reach(nodes.push(node), node.right) == reach(nodes, node.right),
        reach(nodes.push(node), Child::Node(nodes.len() as usize)) == reach(nodes, node.left) + reach(
            nodes,
            node.right,
        ),
{
    let longer = nodes.push(node);
    let count = objects.len() as int;
    assert(longer.subrange(0, nodes.len() as int) =~= nodes);
    lemma_reach_extended(nodes, longer, count, node.left);
    lemma_reach_extended(nodes, longer, count, node.right);
    assert(longer[nodes.len() as int] == node);
    assert(node.left.rank() <= nodes.len());
    assert(node.right.rank() <= nodes.len());
}

/// Adding a node that divides its objects keeps every node dividing its own.
proof fn lemma_push_divided(nodes: Seq<Node>, objects: Seq<Object>, node: Node, axis: usize)
    requires
        linked(nodes, objects.len() as int),
        forall|k: int| 0 <= k < nodes.len() ==> #[trigger] divided(nodes, objects, k),
        nodes.len() < usize::MAX,
        node.left.valid(nodes.len() as int, objects.len() as int),
        node.right.valid(nodes.len() as int, objects.len() as int),
        axis < 3,
        forall|a: usize, b: usize|
            #[trigger] reach(nodes, node.left).contains(a) && #[trigger] reach(nodes, node.right).contains(b)
                ==> not_after(objects, a, b, axis),
    ensures
        forall|k: int| 0 <= k < nodes.push(node).len() ==> #[trigger] divided(nodes.push(node), objects, k),
{
    let longer = nodes.push(node);
    let top = nodes.len() as int;
    lemma_reach_pushed(nodes, objects, node);
    assert(longer[top] == node);
    assert(divided_along(longer, objects, top, axis)) by {
        reveal(divided_along);
    }
    assert forall|k: int| 0 <= k < longer.len() implies #[trigger] divided(longer, objects, k) by {
        if k < nodes.len() {
            lemma_divided_extended(nodes, longer, objects, k);
        }
    }
}

/// Adding a node that halves its objects keeps every node halving its own,
/// and the new node holds what its children hold.
proof fn lemma_push_halved(nodes: Seq<Node>, objects: Seq<Object>, node: Node)
    requires
        linked(nodes, objects.len() as int),
        forall|k: int| 0 <= k < nodes.len() ==> #[trigger] halved(nodes, k),
        nodes.len() < usize::MAX,
        node.left.valid(nodes.len() as int, objects.len() as int),
        node.right.valid(nodes.len() as int, objects.len() as int),
        match node.left {
            Child::Object(_) => node.right is Object,
            Child::Node(_) => node.right is Node && weight(nodes, node.left) == (weight(nodes, node.left) + weight(
                nodes,
                node.right,
            )) / 2,
        },
    ensures
        forall|k: int| 0 <= k < nodes.push(node).len() ==> #[trigger] halved(nodes.push(node), k),
        weight(nodes.push(node), Child::Node(nodes.len() as usize)) == if node.left is Object && node.left
            == node.right {
            1
        } else {
            weight(nodes, node.left) + weight(nodes, node.right)
        },
{
    let longer = nodes.push(node);
    let count = objects.len() as int;
    let top = nodes.len() as int;
    assert(longer.subrange(0, nodes.len() as int) =~= nodes);
    lemma_weight_extended(nodes, longer, count, node.left);
    lemma_weight_extended(nodes, longer, count, node.right);
    assert(longer[top] == node);
    assert(node.left.rank() <= nodes.len());
    assert(node.right.rank() <= nodes.len());
    assert forall|k: int| 0 <= k < longer.len() implies #[trigger] halved(longer, k) by {
        if k < nodes.len() {
            assert(longer[k] == nodes[k]);
            assert(halved(nodes, k));
            assert(nodes[k].left.valid(k, count) && nodes[k].right.valid(k, count));
            lemma_weight_extended(nodes, longer, count, nodes[k].left);
            lemma_weight_extended(nodes, longer, count, nodes[k].right);
        }
    }
}

/// Part of a row of objects that all have boxes and can be ordered has the
/// same.
proof fn lemma_part_inherits(objects: Seq<Object>, members: Seq<usize>, part: Seq<usize>)
    requires
        all_extended(objects, members),
        sortable(objects, members),
        forall|k: int| 0 <= k < part.len() ==> members.contains(#[trigger] part[k]),
    ensures
        all_extended(objects, part),
        sortable(objects, part),
{
    assert forall|k: int| 0 <= k < part.len() implies (#[trigger] part[k]) < objects.len()
        && objects[part[k] as int].extent.is_some() by {
        let i = choose|i: int| 0 <= i < members.len() && members[i] == part[k];
        assert(members[i] < objects.len());
    }
    assert forall|along: usize| along < 3 implies #[trigger] all_comparable(objects, part, along) by {
        assert(all_comparable(objects, members, along));
        assert forall|k: int| 0 <= k < part.len() implies (#[trigger] part[k]) < objects.len()
            && crate::split::comparable(objects[part[k] as int], along) by {
            let i = choose|i: int| 0 <= i < members.len() && members[i] == part[k];
            assert(members[i] < objects.len());
        }
    }
}

/// The two halves of a sorted row hold the objects of the row between them,
/// and each half inherits what the row had.
proof fn lemma_halves(objects: Seq<Object>, members: Seq<usize>, whole: Seq<usize>, mid: int)
    requires
        all_extended(objects, members),
        sortable(objects, members),
        whole.to_multiset() == members.to_multiset(),
        members.no_duplicates(),
        0 <= mid <= whole.len(),
    ensures
        whole.subrange(0, mid).no_duplicates(),
        whole.subrange(mid, whole.len() as int).no_duplicates(),
        all_extended(objects, whole.subrange(0, mid)),
        sortable(objects, whole.subrange(0, mid)),
        all_extended(objects, whole.subrange(mid, whole.len() as int)),
        sortable(objects, whole.subrange(mid, whole.len() as int)),
        whole.subrange(0, mid).to_set() + whole.subrange(mid, whole.len() as int).to_set() == members.to_set(),
{
    let low = whole.subrange(0, mid);
    let high = whole.subrange(mid, whole.len() as int);
    lemma_same_members(whole, members);
    lemma_split_members(whole, mid);
    assert forall|k: int| 0 <= k < low.len() implies members.contains(#[trigger] low[k]) by {
        assert(whole[k] == low[k]);
        assert(whole.to_set().contains(low[k]));
        assert(members.to_set().contains(low[k]));
    }
    assert forall|k: int| 0 <= k < high.len() implies members.contains(#[trigger] high[k]) by {
        assert(whole[k + mid] == high[k]);
        assert(whole.to_set().contains(high[k]));
        assert(members.to_set().contains(high[k]));
    }
    lemma_part_inherits(objects, members, low);
    lemma_part_inherits(objects, members, high);
    members.lemma_multiset_has_no_duplicates();
    whole.lemma_multiset_has_no_duplicates_conv();
    assert forall|a: int, b: int| 0 <= a < low.len() && 0 <= b < low.len() && a != b implies low[a] != low[b] by {
        assert(whole[a] != whole[b]);
    }
    assert forall|a: int, b: int| 0 <= a < high.len() && 0 <= b < high.len() && a != b implies high[a]
        != high[b] by {
        assert(whole[a + mid] != whole[b + mid]);
    }
}

/// In a row sorted along `axis`, nothing in the lower part comes after
/// anything in the upper part.
proof fn lemma_halves_divided(objects: Seq<Object>, whole: Seq<usize>, mid: int, axis: usize, a: usize, b: usize)
    requires
        crate::split::ascending(objects, whole, axis),
        0 <= mid <= whole.len(),
        whole.subrange(0, mid).to_set().contains(a),
        whole.subrange(mid, whole.len() as int).to_set().contains(b),
    ensures
        not_after(objects, a, b, axis),
{
    let low = whole.subrange(0, mid);
    let high = whole.subrange(mid, whole.len() as int);
    assert(low.contains(a));
    assert(high.contains(b));
    let i = choose|i: int| 0 <= i < low.len() && low[i] == a;
    let j = choose|j: int| 0 <= j < high.len() && high[j] == b;
    assert(whole[i] == a && whole[j + mid] == b);
}

/// A beginning of a beginning of a row is a beginning of the row.
proof fn lemma_prefix_chain(first: Seq<Node>, second: Seq<Node>, third: Seq<Node>)
    requires
        first.len() <= second.len() <= third.len(),
        second.subrange(0, first.len() as int) == first,
        third.subrange(0, second.len() as int) == second,
    ensures
        third.subrange(0, first.len() as int) == first,
{
    assert forall|i: int| 0 <= i < first.len() implies third[i] == first[i] by {
        assert(second.subrange(0, first.len() as int)[i] == second[i]);
        assert(third.subrange(0, second.len() as int)[i] == third[i]);
    }
    assert(third.subrange(0, first.len() as int) =~= first);
}

fn box_of(objects: &Vec<Object>, nodes: &Vec<Node>, child: Child) -> (around: AABB)
    requires
        match child {
            Child::Object(i) => i < objects.len() && objects@[i as int].extent.is_some(),
            Child::Node(k) => k < nodes.len(),
        },
    ensures
        around == child_box(nodes@, objects@, child),
{
    match child {
        Child::Object(i) => objects[i].extent.unwrap(),
        Child::Node(k) => nodes[k].ab_box,
    }
}

/// Hangs a hierarchy over the listed objects into `nodes` and returns the
/// index of its root, which is the last node.
fn build(objects: &Vec<Object>, members: Vec<usize>, nodes: &mut Vec<Node>) -> (top: usize)
    requires
        members@.len() >= 1,
        members@.no_duplicates(),
        all_extended(objects@, members@),
        members@.len() >= 2 ==> sortable(objects@, members@),
        built(old(nodes)@, objects@),
    ensures
        final(nodes)@.len() > old(nodes)@.len(),
        top == final(nodes)@.len() - 1,
        final(nodes)@.subrange(0, old(nodes)@.len() as int) == old(nodes)@,
        built(final(nodes)@, objects@),
        reach(final(nodes)@, Child::Node(top)) == members@.to_set(),
        weight(final(nodes)@, Child::Node(top)) == members@.len(),
    decreases members@.len(),
{
    let drawn = random_int(0, 2);
    let axis: usize = if drawn == 0 {
        0
    } else if drawn == 1 {
        1
    } else {
        2
    };
    let object_span = members.len();
    let left: Child;
    let right: Child;
    let ghost before = nodes@;
    if object_span == 1 {
        left = Child::Object(members[0]);
        right = Child::Object(members[0]);
        proof {
            assert(members@.to_set() =~= set![members@[0]]) by {
                assert forall|x: usize| members@.contains(x) == (x == members@[0]) by {
                    if members@.contains(x) {
                        let i = choose|i: int| 0 <= i < members@.len() && members@[i] == x;
                    }
                    if x == members@[0] {
                        assert(members@[0] == x);
                    }
                }
            }
            assert(reach(nodes@, left) + reach(nodes@, right) =~= members@.to_set());
        }
    } else if object_span == 2 {
        assert(all_comparable(objects@, members@, axis));
        assert(members@[0] < objects@.len() && members@[1] < objects@.len());
        if comes_before(&objects[members[0]], &objects[members[1]], axis) {
            left = Child::Object(members[0]);
            right = Child::Object(members[1]);
        } else {
            left = Child::Object(members[1]);
            right = Child::Object(members[0]);
        }
        proof {
            assert forall|x: usize| members@.contains(x) == (x == members@[0] || x == members@[1]) by {
                if members@.contains(x) {
                    let i = choose|i: int| 0 <= i < members@.len() && members@[i] == x;
                }
                if x == members@[0] {
                    assert(members@[0] == x);
                }
                if x == members@[1] {
                    assert(members@[1] == x);
                }
            }
            assert(reach(nodes@, left) + reach(nodes@, right) =~= members@.to_set());
        }
    } else {
        assert(all_comparable(objects@, members@, axis));
        let mut sorted = sort_along(objects, &members, axis);
        let mid = object_span / 2;
        let ghost whole = sorted@;
        let upper = sorted.split_off(mid);
        proof {
            lemma_halves(objects@, members@, whole, mid as int);
        }
        let ghost low = sorted@;
        let l = build(objects, sorted, nodes);
        let ghost between = nodes@;
        let r = build(objects, upper, nodes);
        left = Child::Node(l);
        right = Child::Node(r);
        proof {
            lemma_prefix_chain(before, between, nodes@);
            lemma_reach_extended(between, nodes@, objects@.len() as int, left);
            lemma_weight_extended(between, nodes@, objects@.len() as int, left);
            assert(reach(nodes@, left) + reach(nodes@, right) =~= members@.to_set());
            assert forall|a: usize, b: usize|
                #[trigger] reach(nodes@, left).contains(a) && #[trigger] reach(nodes@, right).contains(b) implies not_after(
                objects@,
                a,
                b,
                axis,
            ) by {
                lemma_halves_divided(objects@, whole, mid as int, axis, a, b);
            }
        }
    }
    assert(nodes@.subrange(0, before.len() as int) =~= before);
    let box_a = box_of(objects, nodes, left);
    let box_b = box_of(objects, nodes, right);
    let node = Node { left, right, ab_box: AABB::surrounding_box(box_a, box_b) };
    let ghost prior = nodes@;
    nodes.push(node);
    let top = nodes.len() - 1;
    proof {
        assert(prior.len() == top);
        lemma_push_linked(prior, objects@, node);
        lemma_push_divided(prior, objects@, node, axis);
        lemma_push_halved(prior, objects@, node);
        lemma_reach_pushed(prior, objects@, node);
        lemma_prefix_chain(before, prior, nodes@);
    }
    top
}

impl BvhNode {
    /// The hierarchy is one over `objects`, and the objects that hang below
    /// its root are exactly those numbered from `start` up to `end`.
    pub open spec fn covers(self, objects: Seq<Object>, start: int, end: int) -> bool {
        &&& built(self.nodes@, objects)
        &&& (start == end) == (self.nodes@.len() == 0)
        &&& start < end ==> reach(self.nodes@, Child::Node((self.nodes@.len() - 1) as usize)) == span_of(start, end).to_set()
        &&& start < end ==> weight(self.nodes@, Child::Node((self.nodes@.len() - 1) as usize)) == end - start
    }

    /// A hierarchy over the objects numbered from `start` up to `end`: empty
    /// for none. Every such object needs a box, and with two objects or more
    /// each needs a box at time zero whose smallest corner holds no NaN.
    pub fn new_with_5para(src_objects: &Vec<Object>, start: usize, end: usize) -> (tree: BvhNode)
        requires
            start <= end <= src_objects.len(),
            all_extended(src_objects@, span_of(start as int, end as int)),
            end - start >= 2 ==> sortable(src_objects@, span_of(start as int, end as int)),
        ensures
            tree.covers(src_objects@, start as int, end as int),
    {
        let mut nodes: Vec<Node> = Vec::new();
        if start == end {
            return BvhNode { nodes };
        }
        let mut members: Vec<usize> = Vec::new();
        let mut i: usize = start;
        while i < end
            invariant
                start <= i <= end,
                members@ == span_of(start as int, i as int),
            decreases end - i,
        {
            members.push(i);
            assert(members@ =~= span_of(start as int, (i + 1) as int));
            i += 1;
        }
        assert(members@.no_duplicates());
        let top = build(src_objects, members, &mut nodes);
        BvhNode { nodes }
    }

    /// A hierarchy over all the objects.
    pub fn new_from_vec(src_objects: &Vec<Object>) -> (tree: BvhNode)
        requires
            all_extended(src_objects@, span_of(0, src_objects@.len() as int)),
            src_objects@.len() >= 2 ==> sortable(src_objects@, span_of(0, src_objects@.len() as int)),
        ensures
            tree.covers(src_objects@, 0, src_objects@.len() as int),
    {
        let x = src_objects.len();
        BvhNode::new_with_5para(src_objects, 0, x)
    }

    /// A hierarchy over the objects of a list.
    pub fn new_from_list(list: HittableList) -> (tree: BvhNode)
        requires
            all_extended(list.objects@, span_of(0, list.objects@.len() as int)),
            list.objects@.len() >= 2 ==> sortable(list.objects@, span_of(0, list.objects@.len() as int)),
        ensures
            tree.covers(list.objects@, 0, list.objects@.len() as int),
    {
        BvhNode::new_from_vec(&list.objects)
    }
}

} // verus!
