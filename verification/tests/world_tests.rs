use raytracer::aabb::{Slab, AABB};
use raytracer::bvh::{BvhNode, Child};
use raytracer::hittable::{Hit, HittableList, Object};
use raytracer::scalar::Scalar;
use raytracer::sphere::Roots;
use raytracer::split::{comes_before, sort_along};
use raytracer::vec3::Vec3;
use std::cmp::Ordering;

fn s(x: f64) -> Scalar {
    Scalar::from_bits(x.to_bits())
}

fn f(x: Scalar) -> f64 {
    f64::from_bits(x.to_bits())
}

fn v(a: [f64; 3]) -> Vec3 {
    Vec3::new(s(a[0]), s(a[1]), s(a[2]))
}

fn dot(a: [f64; 3], b: [f64; 3]) -> f64 {
    a[0] * b[0] + a[1] * b[1] + a[2] * b[2]
}

#[derive(Clone, Copy)]
struct Ball {
    center: [f64; 3],
    r: f64,
}

struct Dice(u64);

impl Dice {
    fn next(&mut self) -> f64 {
        self.0 = self.0.wrapping_mul(6364136223846793005).wrapping_add(1442695040888963407);
        ((self.0 >> 11) as f64) / ((1u64 << 53) as f64)
    }

    fn between(&mut self, lo: f64, hi: f64) -> f64 {
        lo + self.next() * (hi - lo)
    }
}

fn bounds(b: &Ball) -> AABB {
    AABB::new(
        v([b.center[0] - b.r, b.center[1] - b.r, b.center[2] - b.r]),
        v([b.center[0] + b.r, b.center[1] + b.r, b.center[2] + b.r]),
    )
}

fn object(b: &Ball, mat_ptr: usize) -> Object {
    Object { extent: Some(bounds(b)), anchor: Some(bounds(b)), mat_ptr }
}

fn solve(b: &Ball, orig: [f64; 3], dir: [f64; 3]) -> Roots {
    let oc = [orig[0] - b.center[0], orig[1] - b.center[1], orig[2] - b.center[2]];
    let a = dot(dir, dir);
    let half_b = dot(dir, oc);
    let c = dot(oc, oc) - b.r * b.r;
    let discriminant = half_b * half_b - a * c;
    let root = discriminant.sqrt();
    Roots { discriminant: s(discriminant), near: s((-half_b - root) / a), far: s((-half_b + root) / a) }
}

fn slabs(b: &AABB, orig: [f64; 3], dir: [f64; 3]) -> [Slab; 3] {
    let mut out = [Slab { inv_d: s(0.0), t0: s(0.0), t1: s(0.0) }; 3];
    for i in 0..3 {
        let inv_d = 1.0 / dir[i];
        out[i] = Slab {
            inv_d: s(inv_d),
            t0: s((f(b.min.index(i)) - orig[i]) * inv_d),
            t1: s((f(b.max.index(i)) - orig[i]) * inv_d),
        };
    }
    out
}

fn scene(count: usize, seed: u64) -> Vec<Ball> {
    let mut dice = Dice(seed);
    let mut balls = Vec::new();
    for _ in 0..count {
        balls.push(Ball {
            center: [dice.between(-6.0, 6.0), dice.between(-6.0, 6.0), dice.between(-12.0, -2.0)],
            r: dice.between(0.2, 1.5),
        });
    }
    balls
}

fn list_of(balls: &[Ball]) -> HittableList {
    let mut list = HittableList::new();
    for (i, b) in balls.iter().enumerate() {
        list.add(object(b, i % 3));
    }
    list
}

fn nearest_by_hand(balls: &[Ball], orig: [f64; 3], dir: [f64; 3], t_min: f64, t_max: f64) -> Option<f64> {
    let mut best: Option<f64> = None;
    for b in balls {
        let roots = solve(b, orig, dir);
        if f(roots.discriminant) < 0.0 {
            continue;
        }
        for t in [f(roots.near), f(roots.far)] {
            if t_min < t && t < t_max && best.map_or(true, |so_far| t < so_far) {
                best = Some(t);
            }
        }
    }
    best
}

fn walk(tree: &BvhNode, balls: &[Ball], orig: [f64; 3], dir: [f64; 3], t_min: f64, t_max: f64) -> (Option<Hit>, usize) {
    let mut search = tree.start(s(t_min), s(t_max));
    let mut objects_tested = 0;
    while let Some(child) = search.next() {
        match child {
            Child::Node(k) => {
                let seen = slabs(&tree.nodes[k].ab_box, orig, dir);
                search.feed_box(tree, &seen);
            }
            Child::Object(i) => {
                objects_tested += 1;
                search.feed_object(&solve(&balls[i], orig, dir));
            }
        }
    }
    (search.finish(), objects_tested)
}

fn compare_on(count: usize, seed: u64) {
    let balls = scene(count, seed);
    let list = list_of(&balls);
    let tree = BvhNode::new_from_vec(&list.objects);
    let mut dice = Dice(seed ^ 0xABCD);
    let mut hits = 0;
    for _ in 0..400 {
        let orig = [dice.between(-1.0, 1.0), dice.between(-1.0, 1.0), dice.between(0.0, 2.0)];
        let dir = [dice.between(-0.7, 0.7), dice.between(-0.7, 0.7), -1.0];
        let (t_min, t_max) = if dice.next() < 0.5 { (0.001, f64::INFINITY) } else { (0.001, dice.between(2.0, 12.0)) };
        let roots: Vec<Roots> = balls.iter().map(|b| solve(b, orig, dir)).collect();
        let seen: Vec<[Slab; 3]> = tree.nodes.iter().map(|n| slabs(&n.ab_box, orig, dir)).collect();
        let flat = list.hit(&roots, s(t_min), s(t_max));
        let deep = tree.hit(&seen, &roots, s(t_min), s(t_max));
        let (stepped, _) = walk(&tree, &balls, orig, dir, t_min, t_max);
        let by_hand = nearest_by_hand(&balls, orig, dir, t_min, t_max);
        assert_eq!(flat.map(|h| f(h.t)), by_hand);
        assert_eq!(deep, flat);
        assert_eq!(stepped, deep);
        if let Some(h) = flat {
            hits += 1;
            assert_eq!(list.objects[h.object].mat_ptr, list.objects[deep.unwrap().object].mat_ptr);
        }
    }
    if count >= 5 {
        assert!(hits > 0);
    }
}

#[test]
fn hierarchy_and_list_agree_over_no_objects() {
    compare_on(0, 1);
    let tree = BvhNode::new_from_vec(&Vec::new());
    assert_eq!(tree.nodes.len(), 0);
    assert_eq!(tree.root(), None);
    assert_eq!(tree.bounding_box(), None);
    assert_eq!(tree.hit(&Vec::new(), &Vec::new(), s(0.001), s(f64::INFINITY)), None);
    assert_eq!(tree.start(s(0.001), s(f64::INFINITY)).next(), None);
}

#[test]
fn hierarchy_and_list_agree_over_one_object() {
    compare_on(1, 2);
    compare_on(1, 3);
}

#[test]
fn hierarchy_and_list_agree_over_two_objects() {
    compare_on(2, 4);
    compare_on(2, 5);
}

#[test]
fn hierarchy_and_list_agree_over_five_objects() {
    compare_on(5, 6);
    compare_on(5, 7);
}

#[test]
fn hierarchy_and_list_agree_over_fifty_objects() {
    compare_on(50, 8);
    compare_on(50, 9);
}

#[test]
fn hierarchy_over_a_slice_covers_the_slice_only() {
    let balls = scene(9, 10);
    let list = list_of(&balls);
    let tree = BvhNode::new_with_5para(&list.objects, 3, 7);
    let mut leaves = Vec::new();
    for n in tree.nodes.iter() {
        for c in [n.left, n.right] {
            if let Child::Object(i) = c {
                leaves.push(i);
            }
        }
    }
    leaves.sort();
    leaves.dedup();
    assert_eq!(leaves, vec![3, 4, 5, 6]);
    let empty = BvhNode::new_with_5para(&list.objects, 4, 4);
    assert_eq!(empty.nodes.len(), 0);
}

fn box_of(tree: &BvhNode, objects: &[Object], c: Child) -> AABB {
    match c {
        Child::Object(i) => objects[i].extent.unwrap(),
        Child::Node(k) => tree.nodes[k].ab_box,
    }
}

fn below(tree: &BvhNode, c: Child, out: &mut Vec<usize>) {
    match c {
        Child::Object(i) => out.push(i),
        Child::Node(k) => {
            below(tree, tree.nodes[k].left, out);
            below(tree, tree.nodes[k].right, out);
        }
    }
}

#[test]
fn hierarchy_is_linked_boxed_and_divided() {
    for (count, nodes) in [(1usize, 1usize), (2, 1), (3, 3), (5, 5), (50, 63)] {
        let balls = scene(count, 11 + count as u64);
        let list = list_of(&balls);
        let tree = BvhNode::new_from_list(list_of(&balls));
        assert_eq!(tree.nodes.len(), nodes);
        assert_eq!(tree.root(), Some(Child::Node(nodes - 1)));
        assert_eq!(tree.bounding_box(), Some(tree.nodes[nodes - 1].ab_box));
        let mut all = Vec::new();
        below(&tree, tree.root().unwrap(), &mut all);
        all.sort();
        all.dedup();
        assert_eq!(all, (0..count).collect::<Vec<usize>>());
        for (k, n) in tree.nodes.iter().enumerate() {
            for c in [n.left, n.right] {
                match c {
                    Child::Object(i) => assert!(i < count),
                    Child::Node(m) => assert!(m < k),
                }
            }
            let around =
                AABB::surrounding_box(box_of(&tree, &list.objects, n.left), box_of(&tree, &list.objects, n.right));
            assert_eq!(n.ab_box, around);
            let (mut lower, mut upper) = (Vec::new(), Vec::new());
            below(&tree, n.left, &mut lower);
            below(&tree, n.right, &mut upper);
            lower.sort();
            lower.dedup();
            upper.sort();
            upper.dedup();
            let divided = (0..3).any(|axis| {
                lower.iter().all(|a| {
                    upper.iter().all(|b| {
                        let ka = list.objects[*a].anchor.unwrap().min.index(axis);
                        let kb = list.objects[*b].anchor.unwrap().min.index(axis);
                        !kb.lt(ka)
                    })
                })
            });
            assert!(divided);
            if lower.len() + upper.len() > 2 {
                let span = lower.len() + upper.len();
                assert_eq!(lower.len(), span / 2);
            }
        }
    }
}

#[test]
fn single_object_hangs_on_both_sides() {
    let balls = scene(1, 20);
    let tree = BvhNode::new_from_vec(&list_of(&balls).objects);
    assert_eq!(tree.nodes[0].left, Child::Object(0));
    assert_eq!(tree.nodes[0].right, Child::Object(0));
    assert_eq!(tree.nodes[0].ab_box, bounds(&balls[0]));
}

#[test]
fn axis_is_drawn_anew_for_each_build() {
    let balls = [
        Ball { center: [0.0, 2.0, 1.0], r: 0.25 },
        Ball { center: [1.0, 0.0, 2.0], r: 0.25 },
        Ball { center: [2.0, 1.0, 0.0], r: 0.25 },
    ];
    let list = list_of(&balls);
    let mut firsts = Vec::new();
    for _ in 0..60 {
        let tree = BvhNode::new_from_vec(&list.objects);
        assert_eq!(tree.nodes.len(), 3);
        let first = tree.nodes[0].left;
        assert_eq!(tree.nodes[0].right, first);
        assert!(first == Child::Object(0) || first == Child::Object(1) || first == Child::Object(2));
        firsts.push(first);
    }
    assert!(firsts.iter().any(|c| *c != firsts[0]));
}

#[test]
fn traversal_skips_what_the_boxes_rule_out() {
    let balls = scene(50, 21);
    let list = list_of(&balls);
    let tree = BvhNode::new_from_vec(&list.objects);
    let mut dice = Dice(77);
    let mut tested = 0;
    let rays = 200;
    for _ in 0..rays {
        let orig = [dice.between(-1.0, 1.0), dice.between(-1.0, 1.0), 2.0];
        let dir = [dice.between(-0.5, 0.5), dice.between(-0.5, 0.5), -1.0];
        let (_, objects_tested) = walk(&tree, &balls, orig, dir, 0.001, f64::INFINITY);
        tested += objects_tested;
    }
    assert!(tested < rays * 50 / 2);
}

#[test]
fn list_keeps_the_first_of_two_equal_hits() {
    let ball = Ball { center: [0.0, 0.0, -3.0], r: 1.0 };
    let balls = [ball, ball];
    let list = list_of(&balls);
    let roots: Vec<Roots> = balls.iter().map(|b| solve(b, [0.0, 0.0, 0.0], [0.0, 0.0, -1.0])).collect();
    assert_eq!(list.hit(&roots, s(0.001), s(f64::INFINITY)), Some(Hit { t: s(2.0), object: 0 }));
}

#[test]
fn list_finds_the_closest_in_any_order() {
    let near = Ball { center: [0.0, 0.0, -3.0], r: 1.0 };
    let far = Ball { center: [0.0, 0.0, -8.0], r: 1.0 };
    let orig = [0.0, 0.0, 0.0];
    let dir = [0.0, 0.0, -1.0];
    let one = list_of(&[near, far]);
    let other = list_of(&[far, near]);
    let roots_one = vec![solve(&near, orig, dir), solve(&far, orig, dir)];
    let roots_other = vec![solve(&far, orig, dir), solve(&near, orig, dir)];
    assert_eq!(one.hit(&roots_one, s(0.001), s(f64::INFINITY)), Some(Hit { t: s(2.0), object: 0 }));
    assert_eq!(other.hit(&roots_other, s(0.001), s(f64::INFINITY)), Some(Hit { t: s(2.0), object: 1 }));
    assert_eq!(one.hit(&roots_one, s(2.5), s(f64::INFINITY)), Some(Hit { t: s(4.0), object: 0 }));
    assert_eq!(one.hit(&roots_one, s(4.5), s(f64::INFINITY)), Some(Hit { t: s(7.0), object: 1 }));
    assert_eq!(one.hit(&roots_one, s(0.001), s(1.5)), None);
}

#[test]
fn list_box_surrounds_every_object() {
    let balls = scene(12, 30);
    let list = list_of(&balls);
    let around = list.bounding_box().unwrap();
    let mut by_hand = bounds(&balls[0]);
    for b in balls.iter().skip(1) {
        by_hand = AABB::surrounding_box(by_hand, bounds(b));
    }
    assert_eq!(around, by_hand);
    for b in balls.iter() {
        for axis in 0..3 {
            assert!(around.min.index(axis).le(bounds(b).min.index(axis)));
            assert!(bounds(b).max.index(axis).le(around.max.index(axis)));
        }
    }
}

#[test]
fn list_without_a_box_for_every_object_has_none() {
    let mut list = HittableList::new();
    assert_eq!(list.bounding_box(), None);
    let ball = Ball { center: [0.0, 0.0, -3.0], r: 1.0 };
    list.add(object(&ball, 0));
    assert_eq!(list.bounding_box(), Some(bounds(&ball)));
    list.add(Object { extent: None, anchor: None, mat_ptr: 0 });
    assert_eq!(list.bounding_box(), None);
    list.add(object(&ball, 0));
    assert_eq!(list.bounding_box(), None);
    list.clear();
    assert_eq!(list.objects.len(), 0);
    assert_eq!(list.bounding_box(), None);
}

#[test]
fn comparators_order_by_the_smallest_corner() {
    let a = object(&Ball { center: [0.0, 5.0, 1.0], r: 1.0 }, 0);
    let b = object(&Ball { center: [1.0, 2.0, 1.0], r: 0.5 }, 0);
    assert_eq!(BvhNode::x_cmp(&a, &b), Ordering::Less);
    assert_eq!(BvhNode::y_cmp(&a, &b), Ordering::Greater);
    assert_eq!(BvhNode::z_cmp(&a, &b), Ordering::Less);
    assert_eq!(BvhNode::z_cmp(&a, &a), Ordering::Equal);
    assert_eq!(BvhNode::box_cmp(&b, &a, 0), Ordering::Greater);
    assert_eq!(BvhNode::box_cmp(&b, &a, 1), Ordering::Less);
    assert_eq!(BvhNode::box_cmp(&b, &a, 2), Ordering::Greater);
    assert!(comes_before(&a, &b, 0));
    assert!(!comes_before(&a, &b, 1));
    assert!(!comes_before(&a, &a, 2));
}

#[test]
fn sorting_along_an_axis_orders_all_members() {
    let balls = scene(20, 40);
    let list = list_of(&balls);
    let members: Vec<usize> = vec![7, 3, 19, 0, 12, 5, 5, 1];
    for axis in 0..3 {
        let sorted = sort_along(&list.objects, &members, axis);
        let mut a = sorted.clone();
        let mut b = members.clone();
        a.sort();
        b.sort();
        assert_eq!(a, b);
        for w in sorted.windows(2) {
            let lo = f(list.objects[w[0]].anchor.unwrap().min.index(axis));
            let hi = f(list.objects[w[1]].anchor.unwrap().min.index(axis));
            assert!(lo <= hi);
        }
    }
}
