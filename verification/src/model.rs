//! The mathematical model of the clustering algorithm: squared distances,
//! the nearest-candidate scan, tolerant point equality, coordinate-wise
//! means, per-round grouping, and the round-by-round evolution of the
//! centroids. Executable functions in the other modules are proved to
//! return exactly what these spec functions describe.

use vstd::prelude::*;
use crate::fp::{add_bits, sub_bits, mul_bits, div_bits, lt_bits, count_bits};
use crate::fp::{ZERO_BITS, EPSILON_BITS, NEG_EPSILON_BITS};

verus! {

/// The views of a sequence of points.
pub open spec fn views(v: Seq<Vec<u64>>) -> Seq<Seq<u64>> {
    v.map_values(|n: Vec<u64>| n@)
}

/// Every point in the sequence has dimensionality `d`.
pub open spec fn dims_ok(points: Seq<Seq<u64>>, d: nat) -> bool {
    forall|i: int| 0 <= i < points.len() ==> #[trigger] points[i].len() == d
}

/// Every point shares the dimensionality of the first one.
pub open spec fn all_same_dim(points: Seq<Seq<u64>>) -> bool {
    forall|i: int| 0 <= i < points.len() ==> #[trigger] points[i].len() == points[0].len()
}

/// Left-to-right accumulation of the squared coordinate differences,
/// starting from `acc`.
pub open spec fn sq_dist_rec(a: Seq<u64>, b: Seq<u64>, i: int, acc: u64) -> u64
    decreases a.len() - i,
{
    if i < 0 || i >= a.len() {
        acc
    } else {
        let d = sub_bits(a[i], b[i]);
        sq_dist_rec(a, b, i + 1, add_bits(acc, mul_bits(d, d)))
    }
}

/// Squared Euclidean distance between two points of equal dimensionality:
/// the squared coordinate differences summed left to right from zero.
pub open spec fn sq_dist(a: Seq<u64>, b: Seq<u64>) -> u64 {
    sq_dist_rec(a, b, 0, ZERO_BITS)
}

/// The scan for the nearest candidate, from position `i` onward, with the
/// running best distance `best` first seen at index `best_i`. Only a
/// strictly smaller distance displaces the running best, so among equal
/// distances the lowest index wins.
pub open spec fn nearest_rec(q: Seq<u64>, cands: Seq<Seq<u64>>, i: int, best_i: int, best: u64) -> int
    decreases cands.len() - i,
{
    if i < 0 || i >= cands.len() {
        best_i
    } else if lt_bits(sq_dist(q, cands[i]), best) {
        nearest_rec(q, cands, i + 1, i, sq_dist(q, cands[i]))
    } else {
        nearest_rec(q, cands, i + 1, best_i, best)
    }
}

/// The index of the candidate nearest to `q`, ties broken toward the lowest
/// index.
pub open spec fn nearest_spec(q: Seq<u64>, cands: Seq<Seq<u64>>) -> int
    recommends
        cands.len() > 0,
{
    nearest_rec(q, cands, 0, 0, sq_dist(q, cands[0]))
}

/// A coordinate difference `d` is within tolerance when it is neither above
/// the machine epsilon nor below its negation. A NaN difference satisfies
/// neither strict comparison and so counts as within tolerance.
pub open spec fn within_eps(d: u64) -> bool {
    !lt_bits(EPSILON_BITS, d) && !lt_bits(d, NEG_EPSILON_BITS)
}

/// Two points are equal for convergence purposes when they have the same
/// dimensionality and every coordinate pair differs by at most the machine
/// epsilon.
pub open spec fn nodes_equal(a: Seq<u64>, b: Seq<u64>) -> bool {
    a.len() == b.len() && forall|j: int|
        0 <= j < a.len() ==> #[trigger] within_eps(sub_bits(a[j], b[j]))
}

/// Left-to-right sum of coordinate `j` over the first `i` members of the
/// group, starting from zero.
pub open spec fn col_sum(group: Seq<Seq<u64>>, j: int, i: int) -> u64
    decreases i,
{
    if i <= 0 {
        ZERO_BITS
    } else {
        add_bits(col_sum(group, j, i - 1), group[i - 1][j])
    }
}

/// The coordinate-wise mean of a non-empty group: each coordinate is the
/// group's sum in that coordinate divided by the number of members.
pub open spec fn mean_spec(group: Seq<Seq<u64>>, d: nat) -> Seq<u64> {
    Seq::new(d, |j: int| div_bits(col_sum(group, j, group.len() as int), count_bits(group.len())))
}

/// The members of `points`, in order, whose nearest centroid is the one at
/// index `k`.
pub open spec fn group_of(points: Seq<Seq<u64>>, cents: Seq<Seq<u64>>, k: int) -> Seq<Seq<u64>>
    decreases points.len(),
{
    if points.len() == 0 {
        Seq::empty()
    } else {
        let rest = group_of(points.drop_last(), cents, k);
        if nearest_spec(points.last(), cents) == k {
            rest.push(points.last())
        } else {
            rest
        }
    }
}

/// The centroid at index `k` after one round: unchanged when its group is
/// empty or when the group's mean is within tolerance of it, and the mean
/// otherwise.
pub open spec fn step_cent(points: Seq<Seq<u64>>, cents: Seq<Seq<u64>>, k: int) -> Seq<u64> {
    let g = group_of(points, cents, k);
    if g.len() == 0 {
        cents[k]
    } else {
        let m = mean_spec(g, g[0].len());
        if nodes_equal(cents[k], m) {
            cents[k]
        } else {
            m
        }
    }
}

/// All centroids after one round of assignment and recomputation.
pub open spec fn step(points: Seq<Seq<u64>>, cents: Seq<Seq<u64>>) -> Seq<Seq<u64>> {
    Seq::new(cents.len(), |k: int| step_cent(points, cents, k))
}

/// Whether the centroid at index `k` moves beyond tolerance in one round.
pub open spec fn cent_moves(points: Seq<Seq<u64>>, cents: Seq<Seq<u64>>, k: int) -> bool {
    let g = group_of(points, cents, k);
    g.len() > 0 && !nodes_equal(cents[k], mean_spec(g, g[0].len()))
}

/// Whether any centroid moves beyond tolerance in one round.
pub open spec fn moved(points: Seq<Seq<u64>>, cents: Seq<Seq<u64>>) -> bool {
    exists|k: int| 0 <= k < cents.len() && #[trigger] cent_moves(points, cents, k)
}

/// The centroids after at most `rounds` rounds, stopping early at the first
/// round in which no centroid moves. The recursion unfolds at most `rounds`
/// times, so training never performs more rounds than its budget.
pub open spec fn evolve(points: Seq<Seq<u64>>, cents: Seq<Seq<u64>>, rounds: nat) -> Seq<Seq<u64>>
    decreases rounds,
{
    if rounds == 0 {
        cents
    } else if moved(points, cents) {
        evolve(points, step(points, cents), (rounds - 1) as nat)
    } else {
        cents
    }
}

/// A legal random seeding for `k` centroids over `n` points: `k` indices,
/// each one choosing some point.
pub open spec fn is_seed_choice(seeds: Seq<int>, n: int, k: int) -> bool {
    seeds.len() == k && forall|i: int| 0 <= i < seeds.len() ==> 0 <= #[trigger] seeds[i] < n
}

/// The initial centroids named by a seeding: copies of the chosen points,
/// in the order they were drawn.
pub open spec fn seed_cents(points: Seq<Seq<u64>>, seeds: Seq<int>) -> Seq<Seq<u64>> {
    seeds.map_values(|s: int| points[s])
}

/// Every member of a group is drawn from the points, so grouping preserves
/// dimensionality.
pub proof fn lemma_group_of_dims(points: Seq<Seq<u64>>, cents: Seq<Seq<u64>>, k: int, d: nat)
    requires
        dims_ok(points, d),
    ensures
        dims_ok(group_of(points, cents, k), d),
    decreases points.len(),
{
    if points.len() > 0 {
        assert(dims_ok(points.drop_last(), d));
        lemma_group_of_dims(points.drop_last(), cents, k, d);
        assert(points.last().len() == d);
    }
}

/// One round neither adds nor removes centroids, and keeps every centroid
/// at the points' dimensionality.
pub proof fn lemma_step_dims(points: Seq<Seq<u64>>, cents: Seq<Seq<u64>>, d: nat)
    requires
        dims_ok(points, d),
        dims_ok(cents, d),
    ensures
        step(points, cents).len() == cents.len(),
        dims_ok(step(points, cents), d),
{
    assert forall|k: int| 0 <= k < step(points, cents).len() implies #[trigger] step(
        points,
        cents,
    )[k].len() == d by {
        lemma_group_of_dims(points, cents, k, d);
        let g = group_of(points, cents, k);
        if g.len() == 0 {
            assert(cents[k].len() == d);
        } else {
            assert(g[0].len() == d);
        }
    }
}

/// However many rounds run, the number of centroids and their
/// dimensionality never change.
pub proof fn lemma_evolve_shape(points: Seq<Seq<u64>>, cents: Seq<Seq<u64>>, rounds: nat, d: nat)
    requires
        dims_ok(points, d),
        dims_ok(cents, d),
    ensures
        evolve(points, cents, rounds).len() == cents.len(),
        dims_ok(evolve(points, cents, rounds), d),
    decreases rounds,
{
    if rounds > 0 && moved(points, cents) {
        lemma_step_dims(points, cents, d);
        lemma_evolve_shape(points, step(points, cents), (rounds - 1) as nat, d);
    }
}

} // verus!
