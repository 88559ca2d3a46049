//! Limiting the number of chunks: when a compilation has more chunks than
//! allowed, every pair of chunks that could be merged is looked at, in the
//! chunk order, with the sizes that rank it.

use crate::chunk::{chunk_has_runtime, chunk_wf, same_chunk, Chunk, ChunkByUkey, ChunkGroupByUkey};
use crate::chunk_availability::{chunks_integrable, walks_stay_known};
use crate::chunk_combination::ChunkCombination;
use crate::chunk_graph::{ChunkGraph, ChunkSizeOptions};
use crate::chunk_modules::{chunk_size, derefs, integrated_chunk_size};
use crate::chunk_order::chunks_order;
use crate::database::Database;
use crate::lazy_bucket_sorted_set::{empty_view, LazyBucketSortedSet};
use crate::module_graph::ModuleGraph;
use itertools::Itertools;
use std::cmp::Ordering;
use vstd::prelude::*;

verus! {

broadcast use vstd::seq_lib::group_to_multiset_ensures, vstd::multiset::group_multiset_axioms;

/// How many chunks are allowed, and the options of the size estimate.
#[derive(Clone, Copy)]
pub struct LimitChunkCountConfig {
    pub max_chunks: u32,
    pub chunk_overhead: Option<i32>,
    pub entry_chunk_multiplicator: Option<i32>,
}

/// The parts of a compilation that limiting the chunk count reads.
pub struct Compilation {
    pub chunk_graph: ChunkGraph,
    pub chunk_by_ukey: ChunkByUkey,
    pub chunk_group_by_ukey: ChunkGroupByUkey,
    pub module_graph: ModuleGraph,
}

/// Merges chunks while there are more than allowed.
pub struct LimitChunkCountPlugin {
    options: LimitChunkCountConfig,
    chunk_combination_by_ukey: Database<ChunkCombination>,
}

/// What asking whether two chunks can be merged needs: both are well
/// formed; for a chunk with a runtime and one without, the groups reached
/// from the second are known; for two alike, both are in the graph.
pub open spec fn integrate_question_ok(g: ChunkGraph, groups: Map<u64, crate::chunk::ChunkGroup>, x: Chunk, y: Chunk) -> bool {
    &&& chunk_wf(x)
    &&& chunk_wf(y)
    &&& !x.prevent_integration && !y.prevent_integration && chunk_has_runtime(x, groups) && !chunk_has_runtime(y, groups) ==> walks_stay_known(groups, x, y)
    &&& !x.prevent_integration && !y.prevent_integration && !chunk_has_runtime(x, groups) && chunk_has_runtime(y, groups) ==> walks_stay_known(groups, y, x)
    &&& !x.prevent_integration && !y.prevent_integration && chunk_has_runtime(x, groups) == chunk_has_runtime(y, groups) ==> {
        &&& g.chunks().contains_key(x.ukey)
        &&& g.chunks().contains_key(y.ukey)
    }
}

/// The size estimate of a chunk.
pub open spec fn size_of(g: ChunkGraph, groups: Map<u64, crate::chunk::ChunkGroup>, mg: ModuleGraph, options: ChunkSizeOptions, c: Chunk) -> int {
    chunk_size(g.chunks()[c.ukey].modules@, c, options, mg, groups)
}

/// The size estimate of the chunk two chunks would make.
pub open spec fn merged_size_of(g: ChunkGraph, mg: ModuleGraph, options: ChunkSizeOptions, x: Chunk, y: Chunk) -> int {
    integrated_chunk_size(g.chunks()[x.ukey].modules@, g.chunks()[y.ukey].modules@, options, mg)
}

/// Looking at two chunks, the first ordered before the second, works: the
/// question can be asked, and for chunks that can be merged, the sizes and
/// the size saved fit in 64 bits.
pub open spec fn pair_ok(g: ChunkGraph, groups: Map<u64, crate::chunk::ChunkGroup>, mg: ModuleGraph, options: ChunkSizeOptions, x: Chunk, y: Chunk) -> bool {
    &&& integrate_question_ok(g, groups, x, y)
    &&& chunks_integrable(g, groups, x, y) ==> {
        &&& g.chunks().contains_key(x.ukey)
        &&& g.chunks().contains_key(y.ukey)
        &&& merged_size_of(g, mg, options, x, y) <= u64::MAX
        &&& size_of(g, groups, mg, options, x) + size_of(g, groups, mg, options, y) <= u64::MAX
        &&& size_of(g, groups, mg, options, x) + size_of(g, groups, mg, options, y) >= merged_size_of(g, mg, options, x, y)
    }
}

/// The positions `(a, b)` with `a < count`, by `a`.
pub open spec fn pairs_ending_at(count: nat, b: int) -> Seq<(int, int)> {
    Seq::new(count, |a: int| (a, b))
}

/// The positions `(a, b)` with `a < b < n`, by `b`, then by `a`.
pub open spec fn pair_list(n: nat) -> Seq<(int, int)>
    decreases n,
{
    if n == 0 {
        Seq::empty()
    } else {
        pair_list((n - 1) as nat) + pairs_ending_at((n - 1) as nat, n - 1)
    }
}

/// Whether the chunks at two positions can be merged.
pub open spec fn integrable_at(g: ChunkGraph, groups: Map<u64, crate::chunk::ChunkGroup>, chunks: Seq<Chunk>) -> spec_fn((int, int)) -> bool {
    |p: (int, int)| chunks_integrable(g, groups, chunks[p.0], chunks[p.1])
}

/// Filtering a list with one more item.
proof fn lemma_filter_push<A>(s: Seq<A>, x: A, pred: spec_fn(A) -> bool)
    ensures
        s.push(x).filter(pred) == if pred(x) {
            s.filter(pred).push(x)
        } else {
            s.filter(pred)
        },
{
    reveal(Seq::filter);
    assert(s.push(x).drop_last() =~= s);
}

/// The positions of the pairs of chunks that can be merged, in the order
/// they are looked at.
pub open spec fn integrable_pairs(g: ChunkGraph, groups: Map<u64, crate::chunk::ChunkGroup>, chunks: Seq<Chunk>) -> Seq<(int, int)> {
    pair_list(chunks.len()).filter(integrable_at(g, groups, chunks))
}

/// The combination of the chunks at positions `p`, numbered `ukey`: not
/// deleted, with both chunks, their positions, their sizes, the merged size
/// and the size saved.
pub open spec fn combination_matches(
    c: ChunkCombination,
    g: ChunkGraph,
    groups: Map<u64, crate::chunk::ChunkGroup>,
    mg: ModuleGraph,
    options: ChunkSizeOptions,
    chunks: Seq<Chunk>,
    p: (int, int),
    ukey: int,
) -> bool {
    let x = chunks[p.0];
    let y = chunks[p.1];
    &&& c.ukey == ukey
    &&& !c.deleted
    &&& same_chunk(c.chunk_a, x)
    &&& same_chunk(c.chunk_b, y)
    &&& c.a_idx == p.0
    &&& c.b_idx == p.1
    &&& c.a_size == size_of(g, groups, mg, options, x)
    &&& c.b_size == size_of(g, groups, mg, options, y)
    &&& c.integrated_size == merged_size_of(g, mg, options, x, y)
    &&& c.size_diff == c.a_size + c.b_size - c.integrated_size
}


/// A value at two positions of a list occurs twice in it.
proof fn lemma_count_two<A>(s: Seq<A>, i: int, j: int)
    requires
        0 <= i < j < s.len(),
        s[i] == s[j],
    ensures
        s.to_multiset().count(s[i]) >= 2,
{
    assert(s.remove(j)[i] == s[i]);
    assert(s.remove(j).contains(s[i]));
    assert(s.remove(j).to_multiset().count(s[i]) > 0);
}

/// A value that occurs twice in a list stands at two positions.
proof fn lemma_two_positions<A>(s: Seq<A>, v: A) -> (r: (int, int))
    requires
        s.to_multiset().count(v) >= 2,
    ensures
        0 <= r.0 < s.len(),
        0 <= r.1 < s.len(),
        r.0 != r.1,
        s[r.0] == v,
        s[r.1] == v,
{
    assert(s.to_multiset().count(v) > 0);
    assert(s.contains(v));
    let i = choose|i: int| 0 <= i < s.len() && s[i] == v;
    assert(s.remove(i).to_multiset().count(v) > 0);
    assert(s.remove(i).contains(v));
    let k = choose|k: int| 0 <= k < s.remove(i).len() && s.remove(i)[k] == v;
    if k < i {
        (i, k)
    } else {
        (i, k + 1)
    }
}

/// The number of chunks, as a 32-bit count (cut to its low 32 bits).
pub open spec fn chunk_count_u32(n: nat) -> u32 {
    n as u32
}

/// The number of chunks of a compilation, cut to 32 bits.
fn chunk_count(chunk_by_ukey: &ChunkByUkey) -> (r: u32)
    ensures
        r == chunk_count_u32(chunk_by_ukey@.len()),
{
    chunk_by_ukey.len() as u32
}

/// The options of the size estimate in a configuration.
pub open spec fn size_options(c: LimitChunkCountConfig) -> ChunkSizeOptions {
    ChunkSizeOptions { entry_chunk_multiplicator: c.entry_chunk_multiplicator, chunk_overhead: c.chunk_overhead }
}


/// The chunks of a compilation, in no particular order, with their keys.
fn chunk_values<'a>(chunk_by_ukey: &'a ChunkByUkey) -> (r: (Vec<u64>, Vec<&'a Chunk>))
    ensures
        r.0@.no_duplicates(),
        r.0@.to_set() == chunk_by_ukey@.dom(),
        r.1@.len() == r.0@.len(),
        forall|t: int| 0 <= t < r.1@.len() ==> #[trigger] r.1@[t] == chunk_by_ukey@[r.0@[t]],
{
    let keys = chunk_by_ukey.keys();
    let mut chunks: Vec<&Chunk> = Vec::new();
    let mut i: usize = 0;
    while i < keys.len()
        invariant
            i <= keys@.len(),
            keys@.no_duplicates(),
            keys@.to_set() == chunk_by_ukey@.dom(),
            chunks@.len() == i,
            forall|t: int| 0 <= t < i ==> #[trigger] chunks@[t] == chunk_by_ukey@[keys@[t]],
        decreases keys@.len() - i,
    {
        proof {
            assert(keys@.to_set().contains(keys@[i as int]));
        }
        let c = match chunk_by_ukey.get(keys[i]) {
            Some(c) => c,
            None => vstd::pervasive::unreached(),
        };
        chunks.push(c);
        i = i + 1;
    }
    (keys, chunks)
}

/// What limiting the chunk count needs of a compilation with too many
/// chunks: a well formed chunk graph that has every chunk, and any two
/// chunks can be looked at as a pair.
pub open spec fn limit_ok(c: Compilation, config: LimitChunkCountConfig) -> bool {
    chunk_count_u32(c.chunk_by_ukey@.len()) > config.max_chunks ==> {
        &&& c.chunk_graph.wf()
        &&& forall|k: u64| #[trigger] c.chunk_by_ukey@.contains_key(k) ==> c.chunk_graph.chunks().contains_key(c.chunk_by_ukey@[k].ukey)
        &&& forall|k1: u64, k2: u64|
            #![trigger c.chunk_by_ukey@[k1], c.chunk_by_ukey@[k2]]
            c.chunk_by_ukey@.contains_key(k1) && c.chunk_by_ukey@.contains_key(k2) && k1 != k2 ==> pair_ok(
                c.chunk_graph,
                c.chunk_group_by_ukey@,
                c.module_graph,
                size_options(config),
                c.chunk_by_ukey@[k1],
                c.chunk_by_ukey@[k2],
            )
    }
}

/// Calls itertools' `sorted_by` with `ChunkGraph::compare_chunks` (it
/// collects the chunks and sorts them with std's stable `sort_by`). The
/// comparison leaves the graph as it is and is a total preorder (see
/// `law_compare_chunks_antisymmetric` and `law_compare_chunks_transitive`);
/// the contract claims what a sort
/// by it gives: the same chunks, none placed after one that compares smaller.
#[verifier::external_body]
fn sorted_by_compare_chunks<'a>(chunks: Vec<&'a Chunk>, chunk_graph: &mut ChunkGraph) -> (r: Vec<&'a Chunk>)
    requires
        forall|i: int| 0 <= i < chunks@.len() ==> old(chunk_graph).chunks().contains_key(#[trigger] chunks@[i].ukey),
    ensures
        *final(chunk_graph) == *old(chunk_graph),
        r@.to_multiset() == chunks@.to_multiset(),
        forall|i: int, j: int|
            0 <= i < j < r@.len() ==> chunks_order(
                old(chunk_graph).chunks()[r@[i].ukey].modules@,
                old(chunk_graph).chunks()[r@[j].ukey].modules@,
            ) != Ordering::Greater,
{
    chunks.into_iter().sorted_by(|a, b| chunk_graph.compare_chunks(a, b)).collect()
}

impl LimitChunkCountPlugin {
    /// The configuration.
    pub closed spec fn options(&self) -> LimitChunkCountConfig {
        self.options
    }

    /// The combinations recorded so far, by their keys.
    pub closed spec fn combination_store(&self) -> Map<u64, ChunkCombination> {
        self.chunk_combination_by_ukey@
    }

    /// A plugin with the given configuration; at least one chunk must be allowed.
    pub fn new(options: LimitChunkCountConfig) -> (r: LimitChunkCountPlugin)
        requires
            options.max_chunks >= 1,
        ensures
            r.options() == options,
            r.combination_store() == Map::<u64, ChunkCombination>::empty(),
    {
        LimitChunkCountPlugin { options, chunk_combination_by_ukey: Database::new() }
    }

    /// Limits the chunk count of a compilation: with no more chunks than
    /// allowed, nothing is done; otherwise the chunks are ordered by
    /// `compare_chunks` and every pair of them that could be merged is
    /// made into a combination (see `chunk_combinations`). No chunk is
    /// merged yet, so the compilation is left as it is.
    pub fn limit_chunk_count(&self, compilation: &mut Compilation)
        requires
            limit_ok(*old(compilation), self.options()),
        ensures
            *final(compilation) == *old(compilation),
    {
        let ghost c0 = *compilation;
        let max_chunks = self.options.max_chunks;
        let raw_chunks = chunk_count(&compilation.chunk_by_ukey);
        if raw_chunks <= max_chunks {
            return;
        }
        let _remaining_chunks_to_merge = raw_chunks - max_chunks;
        let (keys, chunks) = chunk_values(&compilation.chunk_by_ukey);
        let ghost unsorted = chunks@;
        proof {
            assert forall|t: int| 0 <= t < unsorted.len() implies c0.chunk_graph.chunks().contains_key(#[trigger] unsorted[t].ukey) by {
                assert(keys@.to_set().contains(keys@[t]));
                assert(c0.chunk_by_ukey@.contains_key(keys@[t]));
            }
        }
        let ordered_chunks = sorted_by_compare_chunks(chunks, &mut compilation.chunk_graph);
        let _combinations = LazyBucketSortedSet::new(0);
        let options = ChunkSizeOptions {
            entry_chunk_multiplicator: self.options.entry_chunk_multiplicator,
            chunk_overhead: self.options.chunk_overhead,
        };
        proof {
            let ordered = ordered_chunks@;
            assert forall|a: int, b: int| 0 <= a < b < ordered.len() implies pair_ok(
                c0.chunk_graph,
                c0.chunk_group_by_ukey@,
                c0.module_graph,
                options,
                *ordered[a],
                *ordered[b],
            ) by {
                let x = ordered[a];
                let y = ordered[b];
                assert(ordered.len() == ordered.to_multiset().len());
                assert(unsorted.len() == unsorted.to_multiset().len());
                let (i, j): (int, int) = if x == y {
                    lemma_count_two(ordered, a, b);
                    assert(unsorted.to_multiset().count(x) >= 2);
                    lemma_two_positions(unsorted, x)
                } else {
                    assert(ordered.contains(x));
                    assert(ordered.to_multiset().count(x) > 0);
                    assert(unsorted.to_multiset().count(x) > 0);
                    assert(ordered.contains(y));
                    assert(ordered.to_multiset().count(y) > 0);
                    assert(unsorted.to_multiset().count(y) > 0);
                    let i = choose|i: int| 0 <= i < unsorted.len() && unsorted[i] == x;
                    let j = choose|j: int| 0 <= j < unsorted.len() && unsorted[j] == y;
                    (i, j)
                };
                assert(unsorted[i] == c0.chunk_by_ukey@[keys@[i]]);
                assert(unsorted[j] == c0.chunk_by_ukey@[keys@[j]]);
                assert(keys@[i] != keys@[j]);
                assert(keys@.to_set().contains(keys@[i]));
                assert(keys@.to_set().contains(keys@[j]));
            }
        }
        let _chunk_combinations = chunk_combinations(
            &mut compilation.chunk_graph,
            &ordered_chunks,
            &compilation.chunk_group_by_ukey,
            &compilation.module_graph,
            options,
        );
    }
}

/// Every pair of chunks, the first ordered before the second, that can be
/// merged, made into a combination: the pairs are looked at by the position
/// of the second chunk, then of the first, and numbered from 0.
pub fn chunk_combinations(
    chunk_graph: &mut ChunkGraph,
    ordered_chunks: &Vec<&Chunk>,
    chunk_group_by_ukey: &ChunkGroupByUkey,
    module_graph: &ModuleGraph,
    options: ChunkSizeOptions,
) -> (r: Vec<ChunkCombination>)
    requires
        old(chunk_graph).wf(),
        forall|a: int, b: int|
            0 <= a < b < ordered_chunks@.len() ==> pair_ok(
                *old(chunk_graph),
                chunk_group_by_ukey@,
                *module_graph,
                options,
                *ordered_chunks@[a],
                *ordered_chunks@[b],
            ),
    ensures
        *final(chunk_graph) == *old(chunk_graph),
        r@.len() == integrable_pairs(*old(chunk_graph), chunk_group_by_ukey@, derefs(ordered_chunks@)).len(),
        forall|i: int|
            0 <= i < r@.len() ==> combination_matches(
                #[trigger] r@[i],
                *old(chunk_graph),
                chunk_group_by_ukey@,
                *module_graph,
                options,
                derefs(ordered_chunks@),
                integrable_pairs(*old(chunk_graph), chunk_group_by_ukey@, derefs(ordered_chunks@))[i],
                i,
            ),
{
    let ghost g = *chunk_graph;
    let ghost groups = chunk_group_by_ukey@;
    let ghost chunks = derefs(ordered_chunks@);
    let ghost pred = integrable_at(g, groups, chunks);
    let mut combinations: Vec<ChunkCombination> = Vec::new();
    let mut index_b: usize = 0;
    while index_b < ordered_chunks.len()
        invariant
            *chunk_graph == g,
            g.wf(),
            groups == chunk_group_by_ukey@,
            chunks == derefs(ordered_chunks@),
            pred == integrable_at(g, groups, chunks),
            forall|a: int, b: int|
                0 <= a < b < ordered_chunks@.len() ==> pair_ok(g, groups, *module_graph, options, *ordered_chunks@[a], *ordered_chunks@[b]),
            index_b <= ordered_chunks@.len(),
            combinations@.len() == pair_list(index_b as nat).filter(pred).len(),
            forall|i: int|
                0 <= i < combinations@.len() ==> combination_matches(
                    #[trigger] combinations@[i],
                    g,
                    groups,
                    *module_graph,
                    options,
                    chunks,
                    pair_list(index_b as nat).filter(pred)[i],
                    i,
                ),
        decreases ordered_chunks@.len() - index_b,
    {
        let chunk_b = ordered_chunks[index_b];
        let ghost done = pair_list(index_b as nat);
        let mut index_a: usize = 0;
        proof {
            assert(done + pairs_ending_at(0, index_b as int) =~= done);
        }
        while index_a < index_b
            invariant
                *chunk_graph == g,
                g.wf(),
                groups == chunk_group_by_ukey@,
                chunks == derefs(ordered_chunks@),
                pred == integrable_at(g, groups, chunks),
                forall|a: int, b: int|
                    0 <= a < b < ordered_chunks@.len() ==> pair_ok(g, groups, *module_graph, options, *ordered_chunks@[a], *ordered_chunks@[b]),
                index_b < ordered_chunks@.len(),
                chunk_b == ordered_chunks@[index_b as int],
                done == pair_list(index_b as nat),
                index_a <= index_b,
                combinations@.len() == (done + pairs_ending_at(index_a as nat, index_b as int)).filter(pred).len(),
                forall|i: int|
                    0 <= i < combinations@.len() ==> combination_matches(
                        #[trigger] combinations@[i],
                        g,
                        groups,
                        *module_graph,
                        options,
                        chunks,
                        (done + pairs_ending_at(index_a as nat, index_b as int)).filter(pred)[i],
                        i,
                    ),
            decreases index_b - index_a,
        {
            let chunk_a = ordered_chunks[index_a];
            let ghost before = done + pairs_ending_at(index_a as nat, index_b as int);
            let ghost p = (index_a as int, index_b as int);
            proof {
                assert(done + pairs_ending_at((index_a + 1) as nat, index_b as int) =~= before.push(p));
                lemma_filter_push(before, p, pred);
                assert(chunks[index_a as int] == *chunk_a);
                assert(chunks[index_b as int] == *chunk_b);
                assert(pair_ok(g, groups, *module_graph, options, *chunk_a, *chunk_b));
            }
            if !chunk_graph.can_chunks_be_integrated(chunk_group_by_ukey, chunk_a, chunk_b) {
                index_a = index_a + 1;
                continue;
            }
            let integrated_size = chunk_graph.get_integrated_chunk_size(
                chunk_a,
                chunk_b,
                module_graph,
                options,
            );
            proof {
                crate::module_graph::lemma_modules_size_nonneg(g.chunks()[chunk_a.ukey].modules@, *module_graph);
                crate::module_graph::lemma_modules_size_nonneg(g.chunks()[chunk_b.ukey].modules@, *module_graph);
            }
            let chunk_a_size = chunk_graph.get_chunk_size(
                chunk_a,
                options,
                module_graph,
                chunk_group_by_ukey,
            );
            let chunk_b_size = chunk_graph.get_chunk_size(
                chunk_b,
                options,
                module_graph,
                chunk_group_by_ukey,
            );
            let chunk_combination_ukey = combinations.len() as u64;
            let comb = ChunkCombination {
                ukey: chunk_combination_ukey,
                deleted: false,
                size_diff: chunk_a_size + chunk_b_size - integrated_size,
                integrated_size,
                chunk_a: chunk_a.clone(),
                chunk_b: chunk_b.clone(),
                a_idx: index_a,
                b_idx: index_b,
                a_size: chunk_a_size,
                b_size: chunk_b_size,
            };
            combinations.push(comb);
            index_a = index_a + 1;
        }
        proof {
            assert(done + pairs_ending_at(index_b as nat, index_b as int) =~= pair_list((index_b + 1) as nat));
        }
        index_b = index_b + 1;
    }
    combinations
}

} // verus!
