//! The clustering engine: tolerant equality, coordinate-wise means, random
//! centroid seeding, and the training loop.

use vstd::prelude::*;
use rand::Rng;
use crate::fp::{f_add, f_div, f_lt, f_sub, f_of_count, ZERO_BITS, EPSILON_BITS, NEG_EPSILON_BITS};
use crate::model::{
    all_same_dim, cent_moves, col_sum, dims_ok, evolve, group_of, is_seed_choice, mean_spec,
    moved, nodes_equal, seed_cents, step, step_cent, views, lemma_evolve_shape,
    lemma_group_of_dims, lemma_step_dims,
};
use crate::assign::nearest;
use crate::Node;

verus! {

/// Whether two points are equal for convergence purposes: same
/// dimensionality, and every coordinate pair within the machine epsilon.
/// A coordinate is out of tolerance when its difference lies strictly above
/// epsilon or strictly below negated epsilon; a NaN difference fails both
/// strict comparisons and so stays within tolerance.
pub fn equal(node1: &Node, node2: &Node) -> (r: bool)
    ensures
        r == nodes_equal(node1@, node2@),
{
    if node1.len() != node2.len() {
        return false;
    }
    let mut j: usize = 0;
    while j < node1.len()
        invariant
            node1@.len() == node2@.len(),
            j <= node1@.len(),
            forall|t: int|
                0 <= t < j ==> #[trigger] crate::model::within_eps(
                    crate::fp::sub_bits(node1@[t], node2@[t]),
                ),
        decreases node1@.len() - j,
    {
        let d = f_sub(node1[j], node2[j]);
        if f_lt(EPSILON_BITS, d) || f_lt(d, NEG_EPSILON_BITS) {
            proof {
                assert(!crate::model::within_eps(
                    crate::fp::sub_bits(node1@[j as int], node2@[j as int]),
                ));
            }
            return false;
        }
        j = j + 1;
    }
    true
}

/// A fresh copy of a point.
fn copy_node(node: &Node) -> (r: Node)
    ensures
        r@ == node@,
{
    let mut out: Vec<u64> = Vec::new();
    let mut i: usize = 0;
    while i < node.len()
        invariant
            out@.len() == i,
            i <= node@.len(),
            forall|t: int| 0 <= t < i ==> out@[t] == node@[t],
        decreases node@.len() - i,
    {
        out.push(node[i]);
        i = i + 1;
    }
    proof {
        assert(out@ =~= node@);
    }
    out
}

/// The coordinate-wise mean of a non-empty group of points of equal
/// dimensionality: each coordinate is summed left to right over the group
/// and divided by the number of members.
pub fn mean_node(values: &Vec<Node>) -> (r: Node)
    requires
        values@.len() > 0,
        forall|i: int| 0 <= i < values@.len() ==> #[trigger] values@[i]@.len() == values@[0]@.len(),
    ensures
        r@ == mean_spec(views(values@), values@[0]@.len()),
{
    let ghost g = views(values@);
    let d = values[0].len();
    let mut new_node: Vec<u64> = Vec::new();
    let mut j: usize = 0;
    while j < d
        invariant
            new_node@.len() == j,
            j <= d,
            forall|t: int| 0 <= t < j ==> new_node@[t] == ZERO_BITS,
        decreases d - j,
    {
        new_node.push(ZERO_BITS);
        j = j + 1;
    }

    let mut i: usize = 0;
    while i < values.len()
        invariant
            new_node@.len() == d,
            i <= values@.len(),
            g == views(values@),
            d == values@[0]@.len(),
            forall|t: int| 0 <= t < values@.len() ==> #[trigger] values@[t]@.len() == d,
            forall|t: int| 0 <= t < d ==> new_node@[t] == col_sum(g, t, i as int),
        decreases values@.len() - i,
    {
        let mut jj: usize = 0;
        while jj < d
            invariant
                new_node@.len() == d,
                jj <= d,
                i < values@.len(),
                g == views(values@),
                d == values@[0]@.len(),
                forall|t: int| 0 <= t < values@.len() ==> #[trigger] values@[t]@.len() == d,
                forall|t: int| jj <= t < d ==> new_node@[t] == col_sum(g, t, i as int),
                forall|t: int| 0 <= t < jj ==> new_node@[t] == col_sum(g, t, i as int + 1),
            decreases d - jj,
        {
            let s = f_add(new_node[jj], values[i][jj]);
            new_node.set(jj, s);
            jj = jj + 1;
        }
        i = i + 1;
    }

    let count = f_of_count(values.len());
    let mut k: usize = 0;
    while k < d
        invariant
            new_node@.len() == d,
            k <= d,
            g == views(values@),
            d == values@[0]@.len(),
            count == crate::fp::count_bits(values@.len() as nat),
            forall|t: int| k <= t < d ==> new_node@[t] == col_sum(g, t, g.len() as int),
            forall|t: int|
                0 <= t < k ==> new_node@[t] == crate::fp::div_bits(
                    col_sum(g, t, g.len() as int),
                    crate::fp::count_bits(g.len()),
                ),
        decreases d - k,
    {
        let q = f_div(new_node[k], count);
        new_node.set(k, q);
        k = k + 1;
    }
    proof {
        assert(new_node@ =~= mean_spec(g, d as nat));
    }
    new_node
}

/// Relies on `rand`: sampling `thread_rng` through `Uniform::new(0, n)`
/// yields an index that is uniformly random over `0..n` and in particular
/// strictly below `n`; `Uniform::new` panics on an empty range, so `n`
/// must be positive.
#[verifier::external_body]
fn random_index(n: usize) -> (r: usize)
    requires
        n >= 1,
    ensures
        r < n,
{
    let dist = rand::distributions::Uniform::new(0, n);
    rand::thread_rng().sample(dist)
}

/// The training loop proper, from a given set of initial centroids: in each
/// round every point joins the group of its nearest centroid, every
/// non-empty group's centroid is recomputed as the group's mean (kept
/// unchanged when the mean stays within tolerance, as is any centroid with
/// an empty group), and the loop stops once a round moves nothing or the
/// round budget is spent.
fn train2(nodes: &Vec<Node>, max_rounds: u64, centroids: Vec<Node>) -> (r: Option<Vec<Node>>)
    requires
        centroids@.len() >= 1,
        dims_ok(views(nodes@), views(centroids@)[0].len()),
        dims_ok(views(centroids@), views(centroids@)[0].len()),
    ensures
        r matches Some(c) && views(c@) == evolve(
            views(nodes@),
            views(centroids@),
            max_rounds as nat,
        ),
{
    let ghost p = views(nodes@);
    let ghost c0 = views(centroids@);
    let ghost d = views(centroids@)[0].len();
    let n = nodes.len();
    let k = centroids.len();
    let mut cents = centroids;

    let mut movement = true;
    let mut round: u64 = 0;
    while round < max_rounds && movement
        invariant
            p == views(nodes@),
            n == nodes@.len(),
            cents@.len() == k,
            k >= 1,
            dims_ok(p, d),
            dims_ok(views(cents@), d),
            round <= max_rounds,
            evolve(p, c0, max_rounds as nat) == (if movement {
                evolve(p, views(cents@), (max_rounds - round) as nat)
            } else {
                views(cents@)
            }),
        decreases max_rounds - round,
    {
        let ghost pc = views(cents@);
        movement = false;

        let mut groups: Vec<Vec<Node>> = Vec::new();
        let mut kk: usize = 0;
        while kk < k
            invariant
                p == views(nodes@),
                n == nodes@.len(),
                cents@.len() == k,
                k >= 1,
                dims_ok(p, d),
                dims_ok(views(cents@), d),
                pc == views(cents@),
                groups@.len() == kk,
                kk <= k,
                forall|t: int| 0 <= t < kk ==> views(#[trigger] groups@[t]@) == group_of(p, pc, t),
            decreases k - kk,
        {
            let mut bucket: Vec<Node> = Vec::new();
            let mut i: usize = 0;
            while i < n
                invariant
                    p == views(nodes@),
                    n == nodes@.len(),
                    cents@.len() == k,
                    k >= 1,
                    kk < k,
                    dims_ok(p, d),
                    dims_ok(views(cents@), d),
                    pc == views(cents@),
                    i <= n,
                    views(bucket@) == group_of(p.take(i as int), pc, kk as int),
                decreases n - i,
            {
                proof {
                    assert(p[i as int].len() == d);
                    assert forall|t: int| 0 <= t < cents@.len() implies #[trigger] cents@[t]@.len()
                        == nodes@[i as int]@.len() by {
                        assert(views(cents@)[t].len() == d);
                        assert(p[i as int] == nodes@[i as int]@);
                    }
                }
                let near = nearest(&nodes[i], &cents);
                proof {
                    assert(p.take(i + 1).drop_last() =~= p.take(i as int));
                    assert(p.take(i + 1).last() == p[i as int]);
                }
                if near == kk {
                    let cp = copy_node(&nodes[i]);
                    bucket.push(cp);
                    proof {
                        assert(views(bucket@) =~= group_of(p.take(i + 1), pc, kk as int));
                    }
                }
                i = i + 1;
            }
            proof {
                assert(p.take(n as int) =~= p);
            }
            groups.push(bucket);
            kk = kk + 1;
        }

        let mut key: usize = 0;
        while key < k
            invariant
                p == views(nodes@),
                cents@.len() == k,
                k >= 1,
                key <= k,
                dims_ok(p, d),
                dims_ok(pc, d),
                pc.len() == k,
                groups@.len() == k,
                forall|t: int| 0 <= t < k ==> views(#[trigger] groups@[t]@) == group_of(p, pc, t),
                forall|t: int| 0 <= t < key ==> views(cents@)[t] == step_cent(p, pc, t),
                forall|t: int| key <= t < k ==> views(cents@)[t] == pc[t],
                movement == (exists|t: int| 0 <= t < key && #[trigger] cent_moves(p, pc, t)),
            decreases k - key,
        {
            let ghost g = group_of(p, pc, key as int);
            proof {
                lemma_group_of_dims(p, pc, key as int, d);
            }
            if groups[key].len() > 0 {
                proof {
                    assert(views(groups@[key as int]@) == g);
                    assert forall|t: int| 0 <= t < groups@[key as int]@.len() implies #[trigger] groups@[key as int]@[t]@.len()
                        == groups@[key as int]@[0]@.len() by {
                        assert(g[t].len() == d);
                        assert(g[0].len() == d);
                    }
                }
                let new_node = mean_node(&groups[key]);
                proof {
                    assert(new_node@ == mean_spec(g, g[0].len()));
                }
                if !equal(&cents[key], &new_node) {
                    cents.set(key, new_node);
                    movement = true;
                    proof {
                        assert(cent_moves(p, pc, key as int));
                    }
                } else {
                    proof {
                        assert(!cent_moves(p, pc, key as int));
                    }
                }
            } else {
                proof {
                    assert(!cent_moves(p, pc, key as int));
                }
            }
            key = key + 1;
        }

        proof {
            assert(views(cents@) =~= step(p, pc));
            assert(movement == moved(p, pc));
            lemma_step_dims(p, pc, d);
            if moved(p, pc) {
                assert(evolve(p, pc, (max_rounds - round) as nat) == evolve(
                    p,
                    step(p, pc),
                    (max_rounds - round - 1) as nat,
                ));
            } else {
                assert forall|t: int| 0 <= t < k implies #[trigger] step(p, pc)[t] == pc[t] by {
                    assert(!cent_moves(p, pc, t));
                }
                assert(step(p, pc) =~= pc);
                assert(evolve(p, pc, (max_rounds - round) as nat) == pc);
            }
        }
        round = round + 1;
    }
    Some(cents)
}

/// Train `cluster_count` centroids over the given points for at most
/// `max_rounds` rounds. Training is infeasible, and no result comes back,
/// exactly when there are fewer points than requested clusters or some
/// point's dimensionality differs from the first point's. Otherwise the
/// result holds exactly `cluster_count` centroids of the points'
/// dimensionality, and equals the evolution, for at most `max_rounds`
/// rounds, of some choice of initial centroids drawn from the points
/// (drawn uniformly at random with replacement, so duplicates are
/// possible — a known weakness of naive seeding, kept deliberately).
pub fn train(nodes: &Vec<Node>, cluster_count: usize, max_rounds: u64) -> (r: Option<Vec<Node>>)
    requires
        cluster_count >= 1,
    ensures
        (r is Some) <==> (nodes@.len() >= cluster_count && all_same_dim(views(nodes@))),
        r matches Some(c) ==> c@.len() == cluster_count,
        r matches Some(c) ==> dims_ok(views(c@), nodes@[0]@.len()),
        r matches Some(c) ==> exists|seeds: Seq<int>|
            #[trigger] is_seed_choice(seeds, nodes@.len() as int, cluster_count as int)
                && views(c@) == evolve(
                views(nodes@),
                seed_cents(views(nodes@), seeds),
                max_rounds as nat,
            ),
{
    let ghost p = views(nodes@);
    if nodes.len() < cluster_count {
        return None;
    }

    let mut std_len: usize = 0;
    let mut i: usize = 0;
    while i < nodes.len()
        invariant
            p == views(nodes@),
            i <= nodes@.len(),
            forall|t: int| 0 <= t < i ==> #[trigger] p[t].len() == p[0].len(),
            i >= 1 ==> std_len == p[i - 1].len(),
        decreases nodes@.len() - i,
    {
        let cur_len = nodes[i].len();
        if i > 0 && cur_len != std_len {
            proof {
                assert(p[i as int].len() != p[0].len());
                assert(!all_same_dim(p));
            }
            return None;
        }
        std_len = cur_len;
        i = i + 1;
    }

    let mut centroids: Vec<Node> = Vec::new();
    let ghost mut seeds: Seq<int> = Seq::empty();
    let mut c: usize = 0;
    while c < cluster_count
        invariant
            p == views(nodes@),
            nodes@.len() >= cluster_count,
            cluster_count >= 1,
            all_same_dim(p),
            centroids@.len() == c,
            c <= cluster_count,
            seeds.len() == c,
            forall|t: int| 0 <= t < c ==> 0 <= #[trigger] seeds[t] < nodes@.len(),
            forall|t: int| 0 <= t < c ==> views(centroids@)[t] == p[#[trigger] seeds[t]],
        decreases cluster_count - c,
    {
        let idx = random_index(nodes.len());
        let cp = copy_node(&nodes[idx]);
        centroids.push(cp);
        proof {
            seeds = seeds.push(idx as int);
        }
        c = c + 1;
    }

    let ghost d = p[0].len();
    let ghost cv = views(centroids@);
    proof {
        assert(cv =~= seed_cents(p, seeds));
        assert(is_seed_choice(seeds, nodes@.len() as int, cluster_count as int));
        assert(dims_ok(p, d));
        assert(dims_ok(cv, d));
        assert(cv[0].len() == d);
    }
    let result = train2(nodes, max_rounds, centroids);
    proof {
        lemma_evolve_shape(p, cv, max_rounds as nat, d);
    }
    result
}

} // verus!
