//! Taking a chunk out of the graph and out of its groups.

use crate::chunk::{chunk_wf, removed_chunk, Chunk, ChunkGroup, ChunkGroupByUkey, ChunkUkey};
use crate::chunk_graph::{cgc_wf, ChunkGraph, ChunkGraphChunk, ChunkGraphModule};
use crate::collections::{id_set, ids_view, remove_key};
use vstd::prelude::*;

verus! {

broadcast use vstd::std_specs::hash::group_hash_axioms;

/// Chunk groups after chunk `c` left each of the groups in `gs`; the others
/// are unchanged.
pub open spec fn groups_left(
    before: Map<u64, ChunkGroup>,
    after: Map<u64, ChunkGroup>,
    gs: Set<u64>,
    c: ChunkUkey,
) -> bool {
    &&& after.dom() == before.dom()
    &&& forall|g: u64| #[trigger]
        before.contains_key(g) ==> if gs.contains(g) {
            &&& after[g].chunks@ == removed_chunk(before[g].chunks@, c)
            &&& after[g].ukey == before[g].ukey
            &&& after[g].kind == before[g].kind
            &&& after[g].parents == before[g].parents
            &&& after[g].runtime_chunk == before[g].runtime_chunk
            &&& after[g].entry_point_chunk == before[g].entry_point_chunk
        } else {
            after[g] == before[g]
        }
}

/// Module records after chunk `c` left the records of the modules in `ms`.
pub open spec fn cgms_chunk_left(
    before: Seq<ChunkGraphModule>,
    after: Seq<ChunkGraphModule>,
    ids: Seq<Seq<char>>,
    ms: Set<Seq<char>>,
    c: ChunkUkey,
) -> bool {
    &&& after.len() == before.len()
    &&& forall|i: int|
        0 <= i < before.len() ==> {
            &&& (#[trigger] after[i]).entry_in_chunks == before[i].entry_in_chunks
            &&& after[i].runtime_in_chunks == before[i].runtime_in_chunks
            &&& after[i].chunks@.to_set() == if ms.contains(ids[i]) {
                before[i].chunks@.to_set().remove(c)
            } else {
                before[i].chunks@.to_set()
            }
        }
}


/// What taking all modules out of chunk `c` does to the graph: the chunk's
/// record holds no module and is otherwise unchanged, the records of its
/// modules lose the chunk, and nothing else changes.
pub open spec fn disconnected_chunk(g0: ChunkGraph, g1: ChunkGraph, c: ChunkUkey) -> bool {
    &&& g1.module_identifiers == g0.module_identifiers
    &&& g1.chunks() == g0.chunks().insert(c, g1.chunks()[c])
    &&& g1.chunks()[c].modules@.len() == 0
    &&& crate::chunk_graph::cgc_same_but_modules(g1.chunks()[c], g0.chunks()[c])
    &&& cgms_chunk_left(
        g0.chunk_graph_modules@,
        g1.chunk_graph_modules@,
        g0.module_ids(),
        id_set(g0.chunks()[c].modules@),
        c,
    )
}

impl Chunk {
    /// Makes the chunk leave each of its groups (and the groups drop it).
    pub fn disconnect_from_groups(&mut self, chunk_group_by_ukey: &mut ChunkGroupByUkey)
        requires
            chunk_wf(*old(self)),
            forall|g: u64|
                old(self).groups@.contains(g) ==> old(chunk_group_by_ukey)@.contains_key(g),
        ensures
            chunk_wf(*final(self)),
            final(self).groups@.len() == 0,
            final(self).ukey == old(self).ukey,
            final(self).name == old(self).name,
            final(self).id_name_hints == old(self).id_name_hints,
            final(self).runtime == old(self).runtime,
            final(self).prevent_integration == old(self).prevent_integration,
            groups_left(
                old(chunk_group_by_ukey)@,
                final(chunk_group_by_ukey)@,
                old(self).groups@.to_set(),
                old(self).ukey,
            ),
    {
        let ghost db0 = chunk_group_by_ukey@;
        let mut i: usize = 0;
        proof {
            assert(self.groups@.take(0).to_set() =~= Set::<u64>::empty());
        }
        while i < self.groups.len()
            invariant
                db0 == old(chunk_group_by_ukey)@,
                *self == *old(self),
                self.groups@.no_duplicates(),
                forall|g: u64| self.groups@.contains(g) ==> db0.contains_key(g),
                i <= self.groups@.len(),
                groups_left(db0, chunk_group_by_ukey@, self.groups@.take(i as int).to_set(), self.ukey),
            decreases self.groups@.len() - i,
        {
            let g = self.groups[i];
            let ghost db1 = chunk_group_by_ukey@;
            proof {
                assert(self.groups@.contains(g));
                assert(!self.groups@.take(i as int).to_set().contains(g)) by {
                    if self.groups@.take(i as int).contains(g) {
                        let q = choose|q: int| 0 <= q < i && self.groups@.take(i as int)[q] == g;
                        assert(self.groups@[q] == self.groups@[i as int]);
                    }
                }
                assert(db0.contains_key(g));
                assert(db1[g] == db0[g]);
                assert(self.groups@.take(i + 1) =~= self.groups@.take(i as int).push(g));
                self.groups@.take(i as int).lemma_push_to_set_commute(g);
            }
            let mut group = match chunk_group_by_ukey.remove(g) {
                Some(x) => x,
                None => vstd::pervasive::unreached(),
            };
            group.remove_chunk(self.ukey);
            chunk_group_by_ukey.insert(g, group);
            proof {
                let p1 = self.groups@.take(i + 1).to_set();
                assert(chunk_group_by_ukey@.dom() =~= db0.dom());
                assert forall|h: u64| #[trigger] db0.contains_key(h) implies if p1.contains(h) {
                    &&& chunk_group_by_ukey@[h].chunks@ == removed_chunk(db0[h].chunks@, self.ukey)
                    &&& chunk_group_by_ukey@[h].ukey == db0[h].ukey
                    &&& chunk_group_by_ukey@[h].kind == db0[h].kind
                    &&& chunk_group_by_ukey@[h].parents == db0[h].parents
                    &&& chunk_group_by_ukey@[h].runtime_chunk == db0[h].runtime_chunk
                    &&& chunk_group_by_ukey@[h].entry_point_chunk == db0[h].entry_point_chunk
                } else {
                    chunk_group_by_ukey@[h] == db0[h]
                } by {
                    if h != g {
                        assert(chunk_group_by_ukey@[h] == db1[h]);
                    }
                }
            }
            i = i + 1;
        }
        proof {
            assert(self.groups@.take(self.groups@.len() as int) =~= self.groups@);
        }
        self.groups = Vec::new();
    }
}

impl ChunkGraph {
    /// Takes all modules out of a chunk, on both sides of the graph, and
    /// makes the chunk leave its groups.
    pub fn disconnect_chunk(&mut self, chunk: &mut Chunk, chunk_group_by_ukey: &mut ChunkGroupByUkey)
        requires
            old(self).wf(),
            old(self).chunks().contains_key(old(chunk).ukey),
            forall|m: Seq<char>|
                id_set(old(self).chunks()[old(chunk).ukey].modules@).contains(m) ==> old(
                    self,
                ).has_module(m),
            chunk_wf(*old(chunk)),
            forall|g: u64| old(chunk).groups@.contains(g) ==> old(chunk_group_by_ukey)@.contains_key(g),
        ensures
            final(self).wf(),
            disconnected_chunk(*old(self), *final(self), old(chunk).ukey),
            chunk_wf(*final(chunk)),
            final(chunk).groups@.len() == 0,
            final(chunk).ukey == old(chunk).ukey,
            final(chunk).name == old(chunk).name,
            final(chunk).id_name_hints == old(chunk).id_name_hints,
            final(chunk).runtime == old(chunk).runtime,
            final(chunk).prevent_integration == old(chunk).prevent_integration,
            groups_left(
                old(chunk_group_by_ukey)@,
                final(chunk_group_by_ukey)@,
                old(chunk).groups@.to_set(),
                old(chunk).ukey,
            ),
    {
        let chunk_ukey = chunk.ukey;
        let cgc = match self.chunk_graph_chunk_by_chunk_ukey.remove(&chunk_ukey) {
            Some(c) => c,
            None => vstd::pervasive::unreached(),
        };
        let ChunkGraphChunk { entry_modules, modules, runtime_requirements, runtime_modules } = cgc;
        let emptied = ChunkGraphChunk {
            entry_modules,
            modules: Vec::new(),
            runtime_requirements,
            runtime_modules,
        };
        self.chunk_graph_chunk_by_chunk_ukey.insert(chunk_ukey, emptied);
        let ghost orig = *old(self);
        let ghost ms = ids_view(modules@);
        proof {
            assert(self.chunks().dom() =~= orig.chunks().dom());
            assert(ms.take(0).to_set() =~= Set::<Seq<char>>::empty());
            assert(cgc_wf(self.chunks()[chunk_ukey]));
            assert(forall|k: ChunkUkey| #[trigger]
                self.chunks().contains_key(k) ==> cgc_wf(self.chunks()[k]));
        }
        let mut i: usize = 0;
        while i < modules.len()
            invariant
                orig == *old(self),
                self.wf(),
                ms == ids_view(modules@),
                ms.to_set() == id_set(orig.chunks()[chunk_ukey].modules@),
                forall|m: Seq<char>| ms.contains(m) ==> orig.has_module(m),
                i <= modules@.len(),
                self.module_identifiers == orig.module_identifiers,
                self.chunks() == orig.chunks().insert(chunk_ukey, self.chunks()[chunk_ukey]),
                self.chunks()[chunk_ukey].modules@.len() == 0,
                crate::chunk_graph::cgc_same_but_modules(
                    self.chunks()[chunk_ukey],
                    orig.chunks()[chunk_ukey],
                ),
                cgms_chunk_left(
                    orig.chunk_graph_modules@,
                    self.chunk_graph_modules@,
                    orig.module_ids(),
                    ms.take(i as int).to_set(),
                    chunk_ukey,
                ),
            decreases modules@.len() - i,
        {
            proof {
                assert(ms[i as int] == modules@[i as int]@);
                assert(ms.contains(modules@[i as int]@));
                assert(ms.take(i + 1) =~= ms.take(i as int).push(modules@[i as int]@));
                ms.take(i as int).lemma_push_to_set_commute(modules@[i as int]@);
            }
            let pos = self.module_position(&modules[i]);
            let ghost before = *self;
            remove_key(&mut self.chunk_graph_modules[pos].chunks, chunk_ukey);
            proof {
                let p1 = ms.take(i + 1).to_set();
                let id = modules@[i as int]@;
                assert(before.module_ids() == orig.module_ids());
                assert forall|j: int| 0 <= j < orig.chunk_graph_modules@.len() implies {
                    &&& (#[trigger] self.chunk_graph_modules@[j]).entry_in_chunks
                        == orig.chunk_graph_modules@[j].entry_in_chunks
                    &&& self.chunk_graph_modules@[j].runtime_in_chunks
                        == orig.chunk_graph_modules@[j].runtime_in_chunks
                    &&& self.chunk_graph_modules@[j].chunks@.to_set() == if p1.contains(
                        orig.module_ids()[j],
                    ) {
                        orig.chunk_graph_modules@[j].chunks@.to_set().remove(chunk_ukey)
                    } else {
                        orig.chunk_graph_modules@[j].chunks@.to_set()
                    }
                } by {
                    if j == pos {
                        assert(self.chunk_graph_modules@[j].chunks@.to_set() =~= orig.chunk_graph_modules@[j].chunks@.to_set().remove(chunk_ukey));
                    } else {
                        assert(self.chunk_graph_modules@[j] == before.chunk_graph_modules@[j]);
                        if orig.module_ids()[j] == id {
                            orig.lemma_module_index(j);
                            before.lemma_module_index(j);
                        }
                    }
                }
                assert forall|q: int| 0 <= q < self.chunk_graph_modules@.len() implies crate::chunk_graph::cgm_wf(
                    #[trigger] self.chunk_graph_modules@[q],
                ) by {
                    if q != pos {
                        assert(self.chunk_graph_modules@[q] == before.chunk_graph_modules@[q]);
                    }
                }
            }
            i = i + 1;
        }
        proof {
            assert(ms.take(modules@.len() as int) =~= ms);
        }
        chunk.disconnect_from_groups(chunk_group_by_ukey);
    }
}

} // verus!
