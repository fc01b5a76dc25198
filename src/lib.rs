//! Evaluation of face-verification embeddings: an embedding cache, the
//! confusion matrix of a distance threshold, the search for the threshold
//! with the fewest errors, and searches over subsets of embedding dimensions.

use vstd::prelude::*;

pub mod confusion;
pub mod threshold;
pub mod samples;
pub mod search;
pub mod greedy;
pub mod exhaustive;
pub mod random;
pub mod heatmap;
pub mod cache;
pub mod dataset;
pub mod quantize;

verus! {

} // verus!
