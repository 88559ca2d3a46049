//! A pair of chunks that could be merged, with the sizes that rank it.

use crate::chunk::Chunk;
use vstd::prelude::*;

verus! {

/// Key of a chunk combination.
pub type ChunkCombinationUkey = u64;

/// Two chunks, the first ordered before the second, that could be merged,
/// and what merging them would save.
pub struct ChunkCombination {
    pub ukey: ChunkCombinationUkey,
    pub deleted: bool,
    /// The size of both chunks minus the size of the merged chunk.
    pub size_diff: u64,
    /// The size of the merged chunk.
    pub integrated_size: u64,
    pub chunk_a: Chunk,
    pub chunk_b: Chunk,
    /// The positions of the two chunks in the chunk order.
    pub a_idx: usize,
    pub b_idx: usize,
    pub a_size: u64,
    pub b_size: u64,
}

} // verus!
