//! Unsupervised partitioning of fixed-dimensional points into a fixed
//! number of clusters by iterative centroid refinement (Lloyd's algorithm).
//! Coordinates are IEEE-754 doubles carried as raw bit patterns, which lets
//! the whole algorithm be verified while the arithmetic itself is done by a
//! software floating-point implementation behind a few trusted wrappers.

mod fp;
mod model;
mod assign;
mod engine;

pub use assign::distance;
pub use assign::nearest;
pub use engine::equal;
pub use engine::train;
pub use engine::mean_node;
pub use fp::add_bits;
pub use fp::count_bits;
pub use fp::div_bits;
pub use fp::lt_bits;
pub use fp::mul_bits;
pub use fp::sub_bits;
pub use fp::EPSILON_BITS;
pub use fp::NEG_EPSILON_BITS;
pub use fp::ZERO_BITS;
pub use model::all_same_dim;
pub use model::cent_moves;
pub use model::col_sum;
pub use model::dims_ok;
pub use model::evolve;
pub use model::group_of;
pub use model::is_seed_choice;
pub use model::lemma_evolve_shape;
pub use model::lemma_group_of_dims;
pub use model::lemma_step_dims;
pub use model::mean_spec;
pub use model::moved;
pub use model::nearest_rec;
pub use model::nearest_spec;
pub use model::nodes_equal;
pub use model::seed_cents;
pub use model::sq_dist;
pub use model::sq_dist_rec;
pub use model::step;
pub use model::step_cent;
pub use model::views;
pub use model::within_eps;

use vstd::prelude::*;

verus! {

/// A point: one coordinate per dimension, each coordinate an IEEE-754
/// double given by its raw bit pattern.
pub type Node = Vec<u64>;

} // verus!
