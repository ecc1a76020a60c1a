//! The lattice of the noise generator: three random permutations of
//! `0..256` and a table of 256 gradient vectors.
//!
//! A point of space lies in a unit cell of the integer lattice. Each corner
//! of the cell is hashed to a gradient by looking up its three coordinates,
//! taken modulo 256, in the three permutations and combining the results
//! with exclusive or. Blending the eight gradients is the caller's.
use crate::utility::random_int;
use crate::vec3::Vec3;
use vstd::multiset::Multiset;
use vstd::prelude::*;
use vstd::seq_lib::{to_multiset_contains, to_multiset_update};

verus! {

pub struct Perlin {
    pub perm_x: [i32; 256],
    pub perm_y: [i32; 256],
    pub perm_z: [i32; 256],
    pub ranvec: [Vec3; 256],
}

/// Every number from `0` to `255` stands in the table, once.
pub open spec fn is_permutation(p: Seq<i32>) -> bool {
    &&& p.len() == 256
    &&& forall|i: int| 0 <= i < 256 ==> 0 <= #[trigger] p[i] < 256
    &&& forall|i: int, j: int| 0 <= i < j < 256 ==> #[trigger] p[i] != #[trigger] p[j]
}

/// A lattice coordinate folded into the table: its remainder modulo 256.
pub open spec fn cell_spec(coordinate: int) -> int {
    coordinate % 256
}

/// The table after the entries at `i` and at `target` have traded places.
pub open spec fn traded(p: Seq<i32>, i: int, target: int) -> Seq<i32> {
    p.update(i, p[target]).update(target, p[i])
}

/// The table after a shuffle of the entries from `from` up to `n`: from the
/// last of them down to the one at `from`, the entry at `k` has traded
/// places with the one at `draws[k]`.
pub open spec fn shuffled(p: Seq<i32>, from: int, n: int, draws: Seq<int>) -> Seq<i32>
    decreases n - from,
{
    if from >= n {
        p
    } else {
        traded(shuffled(p, from + 1, n, draws), from, draws[from])
    }
}

/// `after` is the shuffle of the first `n` entries of `before` by `draws`,
/// of which each lies at or before its own place.
pub open spec fn shuffled_by(before: Seq<i32>, after: Seq<i32>, n: int, draws: Seq<int>) -> bool {
    &&& draws.len() == n
    &&& forall|k: int| 0 <= k < n ==> 0 <= #[trigger] draws[k] <= k
    &&& after == shuffled(before, 0, n, draws)
}

/// A shuffle from `from` on depends on the draws from `from` on only.
proof fn lemma_shuffled_later_draws(p: Seq<i32>, from: int, n: int, one: Seq<int>, other: Seq<int>)
    requires
        0 <= from,
        forall|k: int| from <= k < n ==> one[k] == other[k],
    ensures
        shuffled(p, from, n, one) == shuffled(p, from, n, other),
    decreases n - from,
{
    if from < n {
        lemma_shuffled_later_draws(p, from + 1, n, one, other);
    }
}

/// Putting `a` in for one `b` and then `b` in for one `a` leaves a collection
/// that held a `b` as it was.
proof fn lemma_trade(m: Multiset<i32>, a: i32, b: i32)
    requires
        m.count(b) > 0,
    ensures
        m.insert(a).remove(b).insert(b).remove(a) == m,
{
    broadcast use vstd::multiset::group_multiset_axioms;

    let end = m.insert(a).remove(b).insert(b).remove(a);
    assert forall|x: i32| end.count(x) == m.count(x) by {
        assert(m.insert(a).count(x) == m.count(x) + if x == a { 1int } else { 0int });
        assert(m.insert(a).remove(b).count(x) == m.insert(a).count(x) - if x == b { 1int } else { 0int });
    }
    assert(end =~= m);
}

impl Perlin {
    /// All three tables are permutations.
    pub open spec fn wf(self) -> bool {
        is_permutation(self.perm_x@) && is_permutation(self.perm_y@) && is_permutation(self.perm_z@)
    }

    /// The place in the gradient table of the lattice point `(i, j, k)`.
    pub open spec fn gradient_index_spec(self, i: int, j: int, k: int) -> int {
        (self.perm_x@[cell_spec(i)] ^ self.perm_y@[cell_spec(j)] ^ self.perm_z@[cell_spec(k)]) as int
    }

    /// The gradient of the lattice point `(i, j, k)`.
    pub open spec fn gradient_spec(self, i: int, j: int, k: int) -> Vec3 {
        self.ranvec@[self.gradient_index_spec(i, j, k)]
    }

    /// Lets the entries at `i` and at `target` trade places.
    pub fn trade(p: &mut [i32; 256], i: usize, target: usize)
        requires
            i < 256,
            target < 256,
        ensures
            final(p)@ == traded(old(p)@, i as int, target as int),
            final(p)@.to_multiset() == old(p)@.to_multiset(),
            is_permutation(old(p)@) ==> is_permutation(final(p)@),
    {
        let ghost before = p@;
        let tmp = p[i];
        let other = p[target];
        p[i] = other;
        p[target] = tmp;
        proof {
            let middle = before.update(i as int, other);
            to_multiset_update(before, i as int, other);
            to_multiset_update(middle, target as int, tmp);
            assert(p@ == middle.update(target as int, tmp));
            assert(middle[target as int] == other);
            assert(before.contains(before[i as int]));
            to_multiset_contains(before, tmp);
            lemma_trade(before.to_multiset(), other, tmp);
            if is_permutation(before) {
                assert forall|a: int, b: int| 0 <= a < b < 256 implies #[trigger] p@[a] != #[trigger] p@[b] by {
                    let from_a = if a == i { target as int } else if a == target { i as int } else { a };
                    let from_b = if b == i { target as int } else if b == target { i as int } else { b };
                    assert(p@[a] == before[from_a] && p@[b] == before[from_b]);
                    assert(from_a != from_b);
                    if from_a < from_b {
                        assert(before[from_a] != before[from_b]);
                    } else {
                        assert(before[from_b] != before[from_a]);
                    }
                }
                assert forall|a: int| 0 <= a < 256 implies 0 <= #[trigger] p@[a] < 256 by {
                    let from_a = if a == i { target as int } else if a == target { i as int } else { a };
                    assert(p@[a] == before[from_a]);
                }
            }
        }
    }

    /// Shuffles the first `n` entries: from the last of them down, each
    /// trades places with an entry drawn at random from those not behind it.
    /// Whatever is drawn, the table ends as the shuffle by some draws within
    /// their ranges; so the entries behind the first `n` stay, and the table
    /// holds what it held.
    pub fn permute(p: &mut [i32; 256], n: usize)
        requires
            n <= 256,
        ensures
            exists|draws: Seq<int>| #[trigger] shuffled_by(old(p)@, final(p)@, n as int, draws),
            final(p)@.to_multiset() == old(p)@.to_multiset(),
            is_permutation(old(p)@) ==> is_permutation(final(p)@),
            forall|k: int| n <= k < 256 ==> final(p)@[k] == old(p)@[k],
    {
        let mut i: usize = n;
        let ghost mut draws: Seq<int> = Seq::new(n as nat, |k: int| 0int);
        while i > 0
            invariant
                i <= n <= 256,
                draws.len() == n,
                forall|k: int| 0 <= k < n ==> 0 <= #[trigger] draws[k] <= k,
                p@ == shuffled(old(p)@, i as int, n as int, draws),
                p@.to_multiset() == old(p)@.to_multiset(),
                is_permutation(old(p)@) ==> is_permutation(p@),
                forall|k: int| n <= k < 256 ==> p@[k] == old(p)@[k],
            decreases i,
        {
            i -= 1;
            let target = random_int(0, i as i32) as usize;
            proof {
                let earlier = draws;
                draws = draws.update(i as int, target as int);
                lemma_shuffled_later_draws(old(p)@, i + 1, n as int, earlier, draws);
            }
            Perlin::trade(p, i, target);
        }
        assert(shuffled_by(old(p)@, p@, n as int, draws));
    }

    /// A fresh random permutation of `0..256`.
    pub fn perlin_generate_perm() -> (p: [i32; 256])
        ensures
            is_permutation(p@),
    {
        let mut p: [i32; 256] = [0; 256];
        let mut i: usize = 0;
        while i < 256
            invariant
                i <= 256,
                forall|k: int| 0 <= k < i ==> p@[k] == k,
            decreases 256 - i,
        {
            p[i] = i as i32;
            i += 1;
        }
        Perlin::permute(&mut p, 256);
        p
    }

    /// A generator with three fresh permutations over the given gradients.
    pub fn new(ranvec: [Vec3; 256]) -> (noise: Perlin)
        ensures
            noise.wf(),
            noise.ranvec == ranvec,
    {
        Perlin {
            perm_x: Perlin::perlin_generate_perm(),
            perm_y: Perlin::perlin_generate_perm(),
            perm_z: Perlin::perlin_generate_perm(),
            ranvec,
        }
    }

    /// Folds the lattice coordinate `coordinate + offset` into the table.
    fn cell(coordinate: i32, offset: i32) -> (c: usize)
        requires
            0 <= offset <= 1,
        ensures
            c == cell_spec(coordinate + offset),
            c < 256,
    {
        let low: i32 = coordinate & 255;
        assert(0 <= low < 256 && low == coordinate % 256) by (bit_vector)
            requires
                low == coordinate & 255,
        ;
        let folded: i32 = if low + offset == 256 {
            0
        } else {
            low + offset
        };
        folded as usize
    }

    /// The gradient at the corner `(di, dj, dk)` of the cell whose lowest
    /// corner is the lattice point `(i, j, k)`.
    pub fn gradient(&self, i: i32, j: i32, k: i32, di: i32, dj: i32, dk: i32) -> (g: Vec3)
        requires
            self.wf(),
            0 <= di <= 1,
            0 <= dj <= 1,
            0 <= dk <= 1,
        ensures
            0 <= self.gradient_index_spec(i + di, j + dj, k + dk) < 256,
            g == self.gradient_spec(i + di, j + dj, k + dk),
    {
        let a: i32 = self.perm_x[Perlin::cell(i, di)];
        let b: i32 = self.perm_y[Perlin::cell(j, dj)];
        let c: i32 = self.perm_z[Perlin::cell(k, dk)];
        let mixed: i32 = a ^ b ^ c;
        assert(0 <= mixed < 256) by (bit_vector)
            requires
                mixed == a ^ b ^ c,
                0 <= a < 256,
                0 <= b < 256,
                0 <= c < 256,
        ;
        self.ranvec[mixed as usize]
    }

    /// The gradients at the eight corners of the cell whose lowest corner is
    /// the lattice point `(i, j, k)`; the corner `(di, dj, dk)` stands at
    /// place `4 di + 2 dj + dk`.
    pub fn noise(&self, i: i32, j: i32, k: i32) -> (c: [Vec3; 8])
        requires
            self.wf(),
        ensures
            forall|di: int, dj: int, dk: int|
                0 <= di <= 1 && 0 <= dj <= 1 && 0 <= dk <= 1 ==> c@[4 * di + 2 * dj + dk] == #[trigger] self.gradient_spec(
                    i + di,
                    j + dj,
                    k + dk,
                ),
    {
        [
            self.gradient(i, j, k, 0, 0, 0),
            self.gradient(i, j, k, 0, 0, 1),
            self.gradient(i, j, k, 0, 1, 0),
            self.gradient(i, j, k, 0, 1, 1),
            self.gradient(i, j, k, 1, 0, 0),
            self.gradient(i, j, k, 1, 0, 1),
            self.gradient(i, j, k, 1, 1, 0),
            self.gradient(i, j, k, 1, 1, 1),
        ]
    }
}

} // verus!
