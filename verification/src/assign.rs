//! Distance and nearest-candidate assignment.

use vstd::prelude::*;
use crate::fp::{f_add, f_sub, f_mul, f_lt, ZERO_BITS};
use crate::model::{sq_dist, sq_dist_rec, nearest_rec, nearest_spec};
use crate::Node;

verus! {

/// Squared Euclidean distance between two points of equal dimensionality:
/// the sum over all coordinate pairs of the squared difference. The square
/// root is never taken, since only the ordering of distances matters.
pub fn distance(node1: &Node, node2: &Node) -> (r: u64)
    requires
        node1@.len() == node2@.len(),
    ensures
        r == sq_dist(node1@, node2@),
{
    let mut acc: u64 = ZERO_BITS;
    let mut i: usize = 0;
    while i < node1.len()
        invariant
            node1@.len() == node2@.len(),
            i <= node1@.len(),
            sq_dist(node1@, node2@) == sq_dist_rec(node1@, node2@, i as int, acc),
        decreases node1@.len() - i,
    {
        let d = f_sub(node1[i], node2[i]);
        acc = f_add(acc, f_mul(d, d));
        i = i + 1;
    }
    acc
}

/// The index of the candidate nearest to `in_node`, scanning left to right
/// and displacing the running best only on a strictly smaller distance, so
/// that among equal distances the lowest index wins. Calling it twice with
/// the same arguments yields the same index: the result is pinned to the
/// `nearest_spec` scan of the arguments alone.
pub fn nearest(in_node: &Node, nodes: &Vec<Node>) -> (r: usize)
    requires
        nodes@.len() > 0,
        forall|i: int| 0 <= i < nodes@.len() ==> #[trigger] nodes@[i]@.len() == in_node@.len(),
    ensures
        r < nodes@.len(),
        r as int == nearest_spec(in_node@, crate::views(nodes@)),
{
    let ghost cands = crate::views(nodes@);
    let mut results: Vec<u64> = Vec::new();
    let mut i: usize = 0;
    while i < nodes.len()
        invariant
            results@.len() == i,
            i <= nodes@.len(),
            forall|t: int| 0 <= t < nodes@.len() ==> #[trigger] nodes@[t]@.len() == in_node@.len(),
            cands == crate::views(nodes@),
            forall|t: int| 0 <= t < i ==> results@[t] == sq_dist(in_node@, #[trigger] cands[t]),
        decreases nodes@.len() - i,
    {
        let d = distance(in_node, &nodes[i]);
        results.push(d);
        i = i + 1;
    }

    let mut mindex: usize = 0;
    let mut curdist: u64 = results[0];
    let mut j: usize = 0;
    while j < results.len()
        invariant
            results@.len() == nodes@.len(),
            nodes@.len() > 0,
            j <= results@.len(),
            mindex < results@.len(),
            cands == crate::views(nodes@),
            forall|t: int| 0 <= t < results@.len() ==> results@[t] == sq_dist(in_node@, #[trigger] cands[t]),
            curdist == sq_dist(in_node@, cands[mindex as int]),
            nearest_spec(in_node@, cands) == nearest_rec(in_node@, cands, j as int, mindex as int, curdist),
        decreases results@.len() - j,
    {
        let d = results[j];
        if f_lt(d, curdist) {
            curdist = d;
            mindex = j;
        }
        j = j + 1;
    }
    mindex
}

} // verus!
