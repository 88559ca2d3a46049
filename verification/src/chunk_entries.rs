//! Chunks that depend on a chunk through its entry modules' entrypoints.

use crate::chunk::{chunk_has_runtime, group_is_initial, Chunk, ChunkByUkey, ChunkGroup, ChunkGroupByUkey, ChunkUkey};
use crate::collections::insert_key;
use crate::chunk_graph::ChunkGraph;
use vstd::prelude::*;

verus! {

broadcast use vstd::std_specs::hash::group_hash_axioms;

/// Some entrypoint of one of the chunk's entry modules holds another chunk.
pub open spec fn has_entry_dependent(
    entries: Seq<(String, u64)>,
    db: Map<u64, ChunkGroup>,
    chunk_ukey: ChunkUkey,
) -> bool {
    exists|i: int, j: int|
        0 <= i < entries.len() && 0 <= j < db[entries[i].1].chunks@.len() && #[trigger] db[#[trigger] entries[i].1].chunks@[j]
            != chunk_ukey
}


/// Chunk `c` stands in group `g2` and is neither `chunk_ukey`, nor the
/// entry point chunk `e`, nor a chunk that holds a runtime.
pub open spec fn dependent_in_group(
    chunks: Map<u64, Chunk>,
    db: Map<u64, ChunkGroup>,
    chunk_ukey: ChunkUkey,
    e: ChunkUkey,
    g2: u64,
    c: ChunkUkey,
) -> bool {
    &&& db[g2].chunks@.contains(c)
    &&& c != chunk_ukey
    &&& c != e
    &&& !chunk_has_runtime(chunks[c], db)
}

/// Chunk `c` depends on `chunk_ukey` through an entry module of the entry
/// point chunk `e`: it stands in that module's entrypoint (see
/// `dependent_in_group`).
pub open spec fn dependent_of_entry(
    g: ChunkGraph,
    chunks: Map<u64, Chunk>,
    db: Map<u64, ChunkGroup>,
    chunk_ukey: ChunkUkey,
    e: ChunkUkey,
    c: ChunkUkey,
) -> bool {
    exists|k: int|
        0 <= k < g.chunks()[e].entry_modules@.len() && dependent_in_group(
            chunks,
            db,
            chunk_ukey,
            e,
            #[trigger] g.chunks()[e].entry_modules@[k].1,
            c,
        )
}

/// Chunk `c` depends on the chunk `chunk_ukey` through one of the chunk's
/// initial groups (see `dependent_of_entry`, with the group's entry point chunk).
pub open spec fn entry_dependent(
    g: ChunkGraph,
    chunks: Map<u64, Chunk>,
    db: Map<u64, ChunkGroup>,
    chunk_ukey: ChunkUkey,
    c: ChunkUkey,
) -> bool {
    exists|i: int|
        0 <= i < chunks[chunk_ukey].groups@.len() && group_is_initial(
            db[#[trigger] chunks[chunk_ukey].groups@[i]],
        ) && dependent_of_entry(
            g,
            chunks,
            db,
            chunk_ukey,
            db[chunks[chunk_ukey].groups@[i]].entry_point_chunk->0,
            c,
        )
}

/// The chunk records and groups that looking at the entry point chunk `e`
/// reads are there.
pub open spec fn entry_point_known(g: ChunkGraph, chunks: Map<u64, Chunk>, db: Map<u64, ChunkGroup>, e: ChunkUkey) -> bool {
    &&& g.chunks().contains_key(e)
    &&& forall|k: int|
        0 <= k < g.chunks()[e].entry_modules@.len() ==> {
            let g2 = #[trigger] g.chunks()[e].entry_modules@[k].1;
            &&& db.contains_key(g2)
            &&& forall|j: int| 0 <= j < db[g2].chunks@.len() ==> chunks.contains_key(#[trigger] db[g2].chunks@[j])
        }
}

/// Everything that looking for the chunks depending on `chunk_ukey` reads
/// is there: the chunk, its groups, the entry point chunk of each initial
/// one (see `entry_point_known`).
pub open spec fn dependents_known(g: ChunkGraph, chunks: Map<u64, Chunk>, db: Map<u64, ChunkGroup>, chunk_ukey: ChunkUkey) -> bool {
    &&& chunks.contains_key(chunk_ukey)
    &&& forall|i: int|
        0 <= i < chunks[chunk_ukey].groups@.len() ==> {
            let gk = #[trigger] chunks[chunk_ukey].groups@[i];
            &&& db.contains_key(gk)
            &&& group_is_initial(db[gk]) ==> db[gk].entry_point_chunk is Some && entry_point_known(
                g,
                chunks,
                db,
                db[gk].entry_point_chunk->0,
            )
        }
}

/// Adds to `r` the chunks of group `g2` that depend on `chunk_ukey`.
fn add_dependents_in_group(
    r: &mut Vec<ChunkUkey>,
    chunk_by_ukey: &ChunkByUkey,
    chunk_group_by_ukey: &ChunkGroupByUkey,
    chunk_ukey: ChunkUkey,
    e: ChunkUkey,
    g2: u64,
)
    requires
        old(r)@.no_duplicates(),
        chunk_group_by_ukey@.contains_key(g2),
        forall|j: int| 0 <= j < chunk_group_by_ukey@[g2].chunks@.len() ==> chunk_by_ukey@.contains_key(#[trigger] chunk_group_by_ukey@[g2].chunks@[j]),
    ensures
        final(r)@.no_duplicates(),
        forall|c: ChunkUkey| #[trigger] final(r)@.contains(c) <==> old(r)@.contains(c) || dependent_in_group(chunk_by_ukey@, chunk_group_by_ukey@, chunk_ukey, e, g2, c),
{
    let chunk_group = match chunk_group_by_ukey.get(g2) {
        Some(g) => g,
        None => vstd::pervasive::unreached(),
    };
    let ghost r0 = r@;
    let mut j: usize = 0;
    while j < chunk_group.chunks.len()
        invariant
            chunk_group_by_ukey@.contains_key(g2),
            *chunk_group == chunk_group_by_ukey@[g2],
            j <= chunk_group.chunks@.len(),
            r@.no_duplicates(),
            forall|t: int| 0 <= t < chunk_group.chunks@.len() ==> chunk_by_ukey@.contains_key(#[trigger] chunk_group.chunks@[t]),
            forall|c: ChunkUkey| #[trigger] r@.contains(c) <==> r0.contains(c) || (chunk_group.chunks@.take(j as int).contains(c) && c != chunk_ukey && c != e && !chunk_has_runtime(chunk_by_ukey@[c], chunk_group_by_ukey@)),
        decreases chunk_group.chunks@.len() - j,
    {
        let c = chunk_group.chunks[j];
        let chunk = match chunk_by_ukey.get(c) {
            Some(x) => x,
            None => vstd::pervasive::unreached(),
        };
        proof {
            assert(chunk_group.chunks@.take(j + 1) =~= chunk_group.chunks@.take(j as int).push(c));
        }
        let ghost rb = r@;
        if c != chunk_ukey && c != e && !chunk.has_runtime(chunk_group_by_ukey) {
            insert_key(r, c);
        }
        proof {
            let tj = chunk_group.chunks@.take(j as int);
            let tj1 = chunk_group.chunks@.take(j + 1);
            assert forall|x: ChunkUkey| #[trigger] r@.contains(x) <==> r0.contains(x) || (tj1.contains(x) && x != chunk_ukey && x != e && !chunk_has_runtime(chunk_by_ukey@[x], chunk_group_by_ukey@)) by {
                assert(r@.contains(x) <==> r@.to_set().contains(x));
                assert(rb.contains(x) <==> rb.to_set().contains(x));
                if tj1.contains(x) && x != c {
                    let t = choose|t: int| 0 <= t < tj1.len() && tj1[t] == x;
                    assert(tj[t] == x);
                }
                if tj.contains(x) {
                    let t = choose|t: int| 0 <= t < tj.len() && tj[t] == x;
                    assert(tj1[t] == x);
                }
                assert(tj1[j as int] == c);
            }
        }
        j = j + 1;
    }
    proof {
        assert(chunk_group.chunks@.take(chunk_group.chunks@.len() as int) =~= chunk_group.chunks@);
    }
}

impl ChunkGraph {
    /// Adds to `r` the chunks that depend on `chunk_ukey` through an entry
    /// module of the entry point chunk `e`.
    fn add_dependents_of_entry(
        &self,
        r: &mut Vec<ChunkUkey>,
        chunk_by_ukey: &ChunkByUkey,
        chunk_group_by_ukey: &ChunkGroupByUkey,
        chunk_ukey: ChunkUkey,
        e: ChunkUkey,
    )
        requires
            old(r)@.no_duplicates(),
            entry_point_known(*self, chunk_by_ukey@, chunk_group_by_ukey@, e),
        ensures
            final(r)@.no_duplicates(),
            forall|c: ChunkUkey| #[trigger] final(r)@.contains(c) <==> old(r)@.contains(c) || dependent_of_entry(*self, chunk_by_ukey@, chunk_group_by_ukey@, chunk_ukey, e, c),
    {
        let cgc = self.get_chunk_graph_chunk(&e);
        let ghost es = cgc.entry_modules@;
        let ghost r0 = r@;
        let mut k: usize = 0;
        while k < cgc.entry_modules.len()
            invariant
                es == cgc.entry_modules@,
                *cgc == self.chunks()[e],
                k <= es.len(),
                r@.no_duplicates(),
                entry_point_known(*self, chunk_by_ukey@, chunk_group_by_ukey@, e),
                forall|c: ChunkUkey| #[trigger] r@.contains(c) <==> r0.contains(c) || exists|t: int| 0 <= t < k && dependent_in_group(chunk_by_ukey@, chunk_group_by_ukey@, chunk_ukey, e, #[trigger] es[t].1, c),
            decreases es.len() - k,
        {
            let g2 = cgc.entry_modules[k].1;
            proof {
                assert(self.chunks()[e].entry_modules@[k as int].1 == g2);
            }
            add_dependents_in_group(r, chunk_by_ukey, chunk_group_by_ukey, chunk_ukey, e, g2);
            proof {
                assert forall|c: ChunkUkey| #[trigger] r@.contains(c) <==> r0.contains(c) || exists|t: int| 0 <= t < k + 1 && dependent_in_group(chunk_by_ukey@, chunk_group_by_ukey@, chunk_ukey, e, #[trigger] es[t].1, c) by {
                    if dependent_in_group(chunk_by_ukey@, chunk_group_by_ukey@, chunk_ukey, e, es[k as int].1, c) {
                        assert(exists|t: int| 0 <= t < k + 1 && dependent_in_group(chunk_by_ukey@, chunk_group_by_ukey@, chunk_ukey, e, #[trigger] es[t].1, c));
                    }
                }
            }
            k = k + 1;
        }
    }

    /// The chunks that depend on a chunk through its initial groups: those
    /// of the entrypoints of the entry modules of each such group's entry
    /// point chunk, but the chunk itself, that entry point chunk, and chunks
    /// holding a runtime; each once.
    pub fn get_chunk_entry_dependent_chunks_iterable(
        &self,
        chunk_ukey: &ChunkUkey,
        chunk_by_ukey: &ChunkByUkey,
        chunk_group_by_ukey: &ChunkGroupByUkey,
    ) -> (r: Vec<ChunkUkey>)
        requires
            dependents_known(*self, chunk_by_ukey@, chunk_group_by_ukey@, *chunk_ukey),
        ensures
            r@.no_duplicates(),
            forall|c: ChunkUkey| #[trigger] r@.contains(c) <==> entry_dependent(*self, chunk_by_ukey@, chunk_group_by_ukey@, *chunk_ukey, c),
    {
        let chunk = match chunk_by_ukey.get(*chunk_ukey) {
            Some(c) => c,
            None => vstd::pervasive::unreached(),
        };
        let ghost gs = chunk.groups@;
        let mut set: Vec<ChunkUkey> = Vec::new();
        let mut i: usize = 0;
        while i < chunk.groups.len()
            invariant
                *chunk == chunk_by_ukey@[*chunk_ukey],
                gs == chunk.groups@,
                i <= gs.len(),
                set@.no_duplicates(),
                dependents_known(*self, chunk_by_ukey@, chunk_group_by_ukey@, *chunk_ukey),
                forall|c: ChunkUkey| #[trigger] set@.contains(c) <==> exists|t: int| 0 <= t < i && group_is_initial(chunk_group_by_ukey@[#[trigger] gs[t]]) && dependent_of_entry(*self, chunk_by_ukey@, chunk_group_by_ukey@, *chunk_ukey, chunk_group_by_ukey@[gs[t]].entry_point_chunk->0, c),
            decreases gs.len() - i,
        {
            let gk = chunk.groups[i];
            proof {
                assert(chunk_by_ukey@[*chunk_ukey].groups@[i as int] == gk);
            }
            let chunk_group = match chunk_group_by_ukey.get(gk) {
                Some(g) => g,
                None => vstd::pervasive::unreached(),
            };
            let ghost before = set@;
            if chunk_group.is_initial() {
                let entry_point_chunk = chunk_group.get_entry_point_chunk();
                self.add_dependents_of_entry(&mut set, chunk_by_ukey, chunk_group_by_ukey, *chunk_ukey, entry_point_chunk);
            }
            proof {
                assert forall|c: ChunkUkey| #[trigger] set@.contains(c) <==> exists|t: int| 0 <= t < i + 1 && group_is_initial(chunk_group_by_ukey@[#[trigger] gs[t]]) && dependent_of_entry(*self, chunk_by_ukey@, chunk_group_by_ukey@, *chunk_ukey, chunk_group_by_ukey@[gs[t]].entry_point_chunk->0, c) by {
                    if group_is_initial(chunk_group_by_ukey@[gs[i as int]]) && dependent_of_entry(*self, chunk_by_ukey@, chunk_group_by_ukey@, *chunk_ukey, chunk_group_by_ukey@[gs[i as int]].entry_point_chunk->0, c) {
                        assert(exists|t: int| 0 <= t < i + 1 && group_is_initial(chunk_group_by_ukey@[#[trigger] gs[t]]) && dependent_of_entry(*self, chunk_by_ukey@, chunk_group_by_ukey@, *chunk_ukey, chunk_group_by_ukey@[gs[t]].entry_point_chunk->0, c));
                    }
                }
            }
            i = i + 1;
        }
        set
    }
}

impl ChunkGraph {
    /// Whether an entrypoint of one of the chunk's entry modules holds a
    /// chunk other than this one.
    pub fn has_chunk_entry_dependent_chunks(
        &self,
        chunk_ukey: &ChunkUkey,
        chunk_group_by_ukey: &ChunkGroupByUkey,
    ) -> (r: bool)
        requires
            self.chunks().contains_key(*chunk_ukey),
            forall|i: int|
                0 <= i < self.chunks()[*chunk_ukey].entry_modules@.len()
                    ==> chunk_group_by_ukey@.contains_key(
                    #[trigger] self.chunks()[*chunk_ukey].entry_modules@[i].1,
                ),
        ensures
            r == has_entry_dependent(
                self.chunks()[*chunk_ukey].entry_modules@,
                chunk_group_by_ukey@,
                *chunk_ukey,
            ),
    {
        let cgc = self.get_chunk_graph_chunk(chunk_ukey);
        let ghost db = chunk_group_by_ukey@;
        let ghost es = cgc.entry_modules@;
        let mut i: usize = 0;
        while i < cgc.entry_modules.len()
            invariant
                db == chunk_group_by_ukey@,
                es == cgc.entry_modules@,
                *cgc == self.chunks()[*chunk_ukey],
                i <= es.len(),
                forall|k: int| 0 <= k < es.len() ==> db.contains_key(#[trigger] es[k].1),
                forall|k: int, j: int|
                    0 <= k < i && 0 <= j < db[es[k].1].chunks@.len() ==> #[trigger] db[#[trigger] es[k].1].chunks@[j]
                        == *chunk_ukey,
            decreases es.len() - i,
        {
            let chunk_group = match chunk_group_by_ukey.get(cgc.entry_modules[i].1) {
                Some(g) => g,
                None => vstd::pervasive::unreached(),
            };
            let mut j: usize = 0;
            while j < chunk_group.chunks.len()
                invariant
                    db == chunk_group_by_ukey@,
                    es == cgc.entry_modules@,
                    *cgc == self.chunks()[*chunk_ukey],
                    i < es.len(),
                    *chunk_group == db[es[i as int].1],
                    j <= chunk_group.chunks@.len(),
                    forall|t: int| 0 <= t < j ==> chunk_group.chunks@[t] == *chunk_ukey,
                decreases chunk_group.chunks@.len() - j,
            {
                if chunk_group.chunks[j] != *chunk_ukey {
                    proof {
                        assert(db[es[i as int].1].chunks@[j as int] != *chunk_ukey);
                        assert(has_entry_dependent(es, db, *chunk_ukey));
                    }
                    return true;
                }
                j = j + 1;
            }
            i = i + 1;
        }
        false
    }
}

} // verus!
