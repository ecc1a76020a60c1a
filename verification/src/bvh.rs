//! A bounding-volume hierarchy over a list of objects, and closest-hit
//! search through it.
//!
//! The hierarchy is a binary tree kept in one vector. A node's children are
//! objects of the list or nodes that stand earlier in the vector, so the
//! last node is the root and the vector can be walked without ever looping.
use crate::aabb::{Slab, AABB};
use crate::hittable::{closest_so_far, Hit, Object};
use crate::scalar::Scalar;
use crate::sphere::Roots;
use vstd::prelude::*;

verus! {

/// What hangs below a node: an object of the list, or another node.
#[derive(Clone, Copy, Debug, PartialEq, Eq, Structural)]
pub enum Child {
    Object(usize),
    Node(usize),
}

/// An inner node: two children and the box around both.
#[derive(Clone, Copy, Debug, PartialEq, Eq, Structural)]
pub struct Node {
    pub left: Child,
    pub right: Child,
    pub ab_box: AABB,
}

/// A hierarchy. It is empty when built over no objects; else its last node
/// is the root.
pub struct BvhNode {
    pub nodes: Vec<Node>,
}

impl Child {
    /// How high a child stands: an object at `0`, node `k` at `k + 1`.
    pub open spec fn rank(self) -> nat {
        match self {
            Child::Object(_) => 0,
            Child::Node(k) => (k + 1) as nat,
        }
    }

    /// A child of node `below` in a hierarchy over `count` objects: an
    /// object of the list, or an earlier node.
    pub open spec fn valid(self, below: int, count: int) -> bool {
        match self {
            Child::Object(i) => i < count,
            Child::Node(k) => k < below,
        }
    }
}

/// Every node's children are objects of the list or earlier nodes.
pub open spec fn linked(nodes: Seq<Node>, count: int) -> bool {
    forall|k: int|
        0 <= k < nodes.len() ==> (#[trigger] nodes[k]).left.valid(k, count) && nodes[k].right.valid(
            k,
            count,
        )
}

/// The closest hit below `child` in `(t_min, t_max)`, for a ray that sees
/// node `k`'s box as `slabs[k]` and object `i`'s quadratic as `roots[i]`.
///
/// An object answers with its root. A node whose box the ray misses answers
/// with nothing. Otherwise the left child is searched, then the right child
/// over the interval cut short at the left child's hit; the right child's
/// answer counts if it has one, else the left child's.
pub open spec fn child_hit(
    nodes: Seq<Node>,
    slabs: Seq<[Slab; 3]>,
    roots: Seq<Roots>,
    child: Child,
    t_min: Scalar,
    t_max: Scalar,
) -> Option<Hit>
    decreases child.rank(),
{
    match child {
        Child::Object(i) => match roots[i as int].select_spec(t_min, t_max) {
            Some(t) => Some(Hit { t, object: i }),
            None => None,
        },
        Child::Node(k) => if k >= nodes.len() || !AABB::hit_spec(slabs[k as int]@, t_min, t_max) {
            None
        } else {
            let node = nodes[k as int];
            let left = if node.left.rank() <= k {
                child_hit(nodes, slabs, roots, node.left, t_min, t_max)
            } else {
                None
            };
            let right = if node.right.rank() <= k {
                child_hit(nodes, slabs, roots, node.right, t_min, closest_so_far(left, t_max))
            } else {
                None
            };
            if right.is_some() {
                right
            } else {
                left
            }
        },
    }
}

/// The objects that hang below `child`.
pub open spec fn reach(nodes: Seq<Node>, child: Child) -> Set<usize>
    decreases child.rank(),
{
    match child {
        Child::Object(i) => set![i],
        Child::Node(k) => if k >= nodes.len() {
            Set::empty()
        } else {
            let node = nodes[k as int];
            let left = if node.left.rank() <= k {
                reach(nodes, node.left)
            } else {
                Set::empty()
            };
            let right = if node.right.rank() <= k {
                reach(nodes, node.right)
            } else {
                Set::empty()
            };
            left + right
        },
    }
}

/// How many objects hang below `child`. A node whose two children are one
/// and the same object holds that one object.
pub open spec fn weight(nodes: Seq<Node>, child: Child) -> nat
    decreases child.rank(),
{
    match child {
        Child::Object(_) => 1,
        Child::Node(k) => if k >= nodes.len() {
            0
        } else {
            let node = nodes[k as int];
            if node.left is Object && node.left == node.right {
                1
            } else {
                let left = if node.left.rank() <= k {
                    weight(nodes, node.left)
                } else {
                    0
                };
                let right = if node.right.rank() <= k {
                    weight(nodes, node.right)
                } else {
                    0
                };
                left + right
            }
        },
    }
}

/// The box of a child: an object's extent, a node's own box.
pub open spec fn child_box(nodes: Seq<Node>, objects: Seq<Object>, child: Child) -> AABB {
    match child {
        Child::Object(i) => objects[i as int].extent.unwrap(),
        Child::Node(k) => nodes[k as int].ab_box,
    }
}

/// Every node's box is the box around the boxes of its two children.
pub open spec fn boxed(nodes: Seq<Node>, objects: Seq<Object>) -> bool {
    forall|k: int|
        0 <= k < nodes.len() ==> (#[trigger] nodes[k]).ab_box == AABB::surrounding_box_spec(
            child_box(nodes, objects, nodes[k].left),
            child_box(nodes, objects, nodes[k].right),
        )
}

/// What hangs below a child does not change when nodes are added behind it.
pub proof fn lemma_reach_extended(nodes: Seq<Node>, longer: Seq<Node>, count: int, child: Child)
    requires
        linked(nodes, count),
        nodes.len() <= longer.len(),
        longer.subrange(0, nodes.len() as int) == nodes,
        child.valid(nodes.len() as int, count),
    ensures
        reach(longer, child) == reach(nodes, child),
    decreases child.rank(),
{
    match child {
        Child::Object(_) => {},
        Child::Node(k) => {
            assert(longer[k as int] == longer.subrange(0, nodes.len() as int)[k as int]);
            let node = nodes[k as int];
            assert(node.left.valid(k as int, count) && node.right.valid(k as int, count));
            lemma_reach_extended(nodes, longer, count, node.left);
            lemma_reach_extended(nodes, longer, count, node.right);
        },
    }
}

/// How many objects hang below a child does not change when nodes are
/// added behind it.
pub proof fn lemma_weight_extended(nodes: Seq<Node>, longer: Seq<Node>, count: int, child: Child)
    requires
        linked(nodes, count),
        nodes.len() <= longer.len(),
        longer.subrange(0, nodes.len() as int) == nodes,
        child.valid(nodes.len() as int, count),
    ensures
        weight(longer, child) == weight(nodes, child),
    decreases child.rank(),
{
    match child {
        Child::Object(_) => {},
        Child::Node(k) => {
            assert(longer[k as int] == longer.subrange(0, nodes.len() as int)[k as int]);
            let node = nodes[k as int];
            assert(node.left.valid(k as int, count) && node.right.valid(k as int, count));
            lemma_weight_extended(nodes, longer, count, node.left);
            lemma_weight_extended(nodes, longer, count, node.right);
        },
    }
}

impl BvhNode {
    /// The hierarchy is sound for a list of `count` objects.
    pub open spec fn wf(self, count: int) -> bool {
        linked(self.nodes@, count)
    }

    /// The root, if there is one.
    pub open spec fn root_spec(self) -> Option<Child> {
        if self.nodes@.len() == 0 {
            None
        } else {
            Some(Child::Node((self.nodes@.len() - 1) as usize))
        }
    }

    /// The closest hit in the whole hierarchy.
    pub open spec fn hit_spec(self, slabs: Seq<[Slab; 3]>, roots: Seq<Roots>, t_min: Scalar, t_max: Scalar) -> Option<Hit> {
        match self.root_spec() {
            Some(root) => child_hit(self.nodes@, slabs, roots, root, t_min, t_max),
            None => None,
        }
    }

    /// An empty hierarchy.
    pub fn new() -> (tree: BvhNode)
        ensures
            tree.nodes@ == Seq::<Node>::empty(),
            tree.wf(0),
    {
        BvhNode { nodes: Vec::new() }
    }

    pub fn root(&self) -> (root: Option<Child>)
        ensures
            root == self.root_spec(),
    {
        if self.nodes.len() == 0 {
            None
        } else {
            Some(Child::Node(self.nodes.len() - 1))
        }
    }

    /// The box of the root; none for an empty hierarchy.
    pub fn bounding_box(&self) -> (around: Option<AABB>)
        ensures
            around == match self.root_spec() {
                Some(_) => Some(self.nodes@[self.nodes@.len() - 1].ab_box),
                None => None,
            },
    {
        if self.nodes.len() == 0 {
            None
        } else {
            Some(self.nodes[self.nodes.len() - 1].ab_box)
        }
    }

    /// The closest hit in `(t_min, t_max)` with every box and every object
    /// already seen from the ray: `slabs[k]` for node `k`, `roots[i]` for
    /// object `i`.
    pub fn hit(&self, slabs: &Vec<[Slab; 3]>, roots: &Vec<Roots>, t_min: Scalar, t_max: Scalar) -> (found: Option<Hit>)
        requires
            self.wf(roots.len() as int),
            slabs.len() == self.nodes.len(),
        ensures
            found == self.hit_spec(slabs@, roots@, t_min, t_max),
    {
        match self.root() {
            Some(root) => self.hit_below(slabs, roots, root, t_min, t_max),
            None => None,
        }
    }

    fn hit_below(&self, slabs: &Vec<[Slab; 3]>, roots: &Vec<Roots>, child: Child, t_min: Scalar, t_max: Scalar) -> (found: Option<Hit>)
        requires
            self.wf(roots.len() as int),
            slabs.len() == self.nodes.len(),
            child.valid(self.nodes.len() as int, roots.len() as int),
        ensures
            found == child_hit(self.nodes@, slabs@, roots@, child, t_min, t_max),
        decreases child.rank(),
    {
        match child {
            Child::Object(i) => match roots[i].select(t_min, t_max) {
                Some(t) => Some(Hit { t, object: i }),
                None => None,
            },
            Child::Node(k) => {
                if !AABB::hit(&slabs[k], t_min, t_max) {
                    return None;
                }
                let node = self.nodes[k];
                let mut hit_rec: Option<Hit> = None;
                let mut closest = t_max;
                if let Some(hit_left) = self.hit_below(slabs, roots, node.left, t_min, t_max) {
                    closest = hit_left.t;
                    hit_rec = Some(hit_left);
                }
                if let Some(hit_right) = self.hit_below(slabs, roots, node.right, t_min, closest) {
                    hit_rec = Some(hit_right);
                }
                hit_rec
            },
        }
    }
}

} // verus!
