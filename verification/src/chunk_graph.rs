//! Which modules, entry modules and runtime modules each chunk holds, and the
//! same relation seen from the modules' side.

use crate::chunk::{ChunkGroupUkey, ChunkUkey};
use crate::collections::{
    all_but, entries_view, entry_keys, find_identifier, id_set, ids_unique, ids_view,
    insert_entry, insert_identifier, insert_key, key_not, remove_entry, remove_identifier,
    remove_key,
};
use crate::module_graph::ModuleIdentifier;
use crate::runtime::RuntimeGlobals;
use std::collections::HashMap;
use vstd::prelude::*;

verus! {

broadcast use vstd::std_specs::hash::group_hash_axioms;

/// Options of the chunk size estimate.
#[derive(Clone, Copy)]
pub struct ChunkSizeOptions {
    pub entry_chunk_multiplicator: Option<i32>,
    pub chunk_overhead: Option<i32>,
}

/// What the chunk graph records for one chunk.
pub struct ChunkGraphChunk {
    /// Entry modules with the entrypoint each belongs to, in insertion order;
    /// re-adding an entry module moves it to the end.
    pub entry_modules: Vec<(ModuleIdentifier, ChunkGroupUkey)>,
    /// The modules of the chunk, each once.
    pub modules: Vec<ModuleIdentifier>,
    pub runtime_requirements: RuntimeGlobals,
    /// The runtime modules of the chunk, each once, in the order they came.
    pub runtime_modules: Vec<ModuleIdentifier>,
}

/// What the chunk graph records for one module.
pub struct ChunkGraphModule {
    /// Chunks in which the module is an entry module.
    pub entry_in_chunks: Vec<ChunkUkey>,
    /// Chunks that hold the module.
    pub chunks: Vec<ChunkUkey>,
    /// Chunks in which the module is a runtime module.
    pub runtime_in_chunks: Vec<ChunkUkey>,
}

/// The relation between chunks and modules, recorded from both sides.
pub struct ChunkGraph {
    /// The modules known to the graph, each once.
    pub module_identifiers: Vec<ModuleIdentifier>,
    /// For each known module (same position), its record.
    pub chunk_graph_modules: Vec<ChunkGraphModule>,
    pub chunk_graph_chunk_by_chunk_ukey: HashMap<ChunkUkey, ChunkGraphChunk>,
}

/// A chunk record holds nothing twice.
pub open spec fn cgc_wf(c: ChunkGraphChunk) -> bool {
    &&& entry_keys(c.entry_modules@).no_duplicates()
    &&& ids_unique(c.modules@)
    &&& ids_unique(c.runtime_modules@)
}

/// A module record holds nothing twice.
pub open spec fn cgm_wf(m: ChunkGraphModule) -> bool {
    &&& m.entry_in_chunks@.no_duplicates()
    &&& m.chunks@.no_duplicates()
    &&& m.runtime_in_chunks@.no_duplicates()
}

/// A chunk record with nothing in it.
pub open spec fn cgc_empty(c: ChunkGraphChunk) -> bool {
    &&& c.entry_modules@.len() == 0
    &&& c.modules@.len() == 0
    &&& c.runtime_requirements.bits == 0
    &&& c.runtime_modules@.len() == 0
}

/// A module record with nothing in it.
pub open spec fn cgm_empty(m: ChunkGraphModule) -> bool {
    &&& m.entry_in_chunks@.len() == 0
    &&& m.chunks@.len() == 0
    &&& m.runtime_in_chunks@.len() == 0
}

/// Two chunk records that agree but for their modules.
pub open spec fn cgc_same_but_modules(a: ChunkGraphChunk, b: ChunkGraphChunk) -> bool {
    &&& a.entry_modules == b.entry_modules
    &&& a.runtime_requirements == b.runtime_requirements
    &&& a.runtime_modules == b.runtime_modules
}

/// Two chunk records that agree but for their entry modules.
pub open spec fn cgc_same_but_entries(a: ChunkGraphChunk, b: ChunkGraphChunk) -> bool {
    &&& a.modules == b.modules
    &&& a.runtime_requirements == b.runtime_requirements
    &&& a.runtime_modules == b.runtime_modules
}

/// Two chunk records that agree but for their runtime modules.
pub open spec fn cgc_same_but_runtime_modules(a: ChunkGraphChunk, b: ChunkGraphChunk) -> bool {
    &&& a.entry_modules == b.entry_modules
    &&& a.modules == b.modules
    &&& a.runtime_requirements == b.runtime_requirements
}

/// Two chunk records that agree but for their runtime requirements.
pub open spec fn cgc_same_but_requirements(a: ChunkGraphChunk, b: ChunkGraphChunk) -> bool {
    &&& a.entry_modules == b.entry_modules
    &&& a.modules == b.modules
    &&& a.runtime_modules == b.runtime_modules
}

impl ChunkGraphChunk {
    /// A chunk record with nothing in it.
    pub fn new() -> (r: ChunkGraphChunk)
        ensures
            cgc_empty(r),
            cgc_wf(r),
    {
        ChunkGraphChunk {
            entry_modules: Vec::new(),
            modules: Vec::new(),
            runtime_requirements: RuntimeGlobals::empty(),
            runtime_modules: Vec::new(),
        }
    }
}

impl ChunkGraphModule {
    /// A module record with nothing in it.
    pub fn new() -> (r: ChunkGraphModule)
        ensures
            cgm_empty(r),
            cgm_wf(r),
    {
        ChunkGraphModule {
            entry_in_chunks: Vec::new(),
            chunks: Vec::new(),
            runtime_in_chunks: Vec::new(),
        }
    }
}



/// What adding a chunk does: a new chunk gets an empty record; nothing else
/// changes.
pub open spec fn added_chunk(g0: ChunkGraph, g1: ChunkGraph, chunk: ChunkUkey) -> bool {
    &&& g1.module_identifiers == g0.module_identifiers
    &&& g1.chunk_graph_modules == g0.chunk_graph_modules
    &&& g0.chunks().contains_key(chunk) ==> g1.chunks() == g0.chunks()
    &&& !g0.chunks().contains_key(chunk) ==> {
        &&& g1.chunks().dom() == g0.chunks().dom().insert(chunk)
        &&& g1.chunks().remove(chunk) == g0.chunks()
        &&& cgc_empty(g1.chunks()[chunk])
    }
}

/// What adding a module does: a new module gets an empty record at the
/// end; nothing else changes.
pub open spec fn added_module(g0: ChunkGraph, g1: ChunkGraph, m: Seq<char>) -> bool {
    &&& g1.chunks() == g0.chunks()
    &&& g0.has_module(m) ==> g1 == g0
    &&& !g0.has_module(m) ==> {
        &&& g1.module_ids() == g0.module_ids().push(m)
        &&& g1.chunk_graph_modules@.len() == g0.chunk_graph_modules@.len() + 1
        &&& g1.chunk_graph_modules@.take(g0.chunk_graph_modules@.len() as int) == g0.chunk_graph_modules@
        &&& cgm_empty(g1.cgm(m))
    }
}


/// What making a module an entry module of a chunk does: the module's record
/// gains the chunk as one it is an entry of, the module moves to the end of
/// the chunk's entries with the entrypoint, and nothing else changes.
pub open spec fn connected_entry(g0: ChunkGraph, g1: ChunkGraph, chunk: ChunkUkey, m: Seq<char>, entrypoint: ChunkGroupUkey) -> bool {
    &&& g1.module_identifiers == g0.module_identifiers
    &&& g1.chunk_graph_modules@ == g0.chunk_graph_modules@.update(g0.module_index(m), g1.cgm(m))
    &&& g1.cgm(m).entry_in_chunks@.to_set() == g0.cgm(m).entry_in_chunks@.to_set().insert(chunk)
    &&& g1.cgm(m).chunks == g0.cgm(m).chunks
    &&& g1.cgm(m).runtime_in_chunks == g0.cgm(m).runtime_in_chunks
    &&& g1.chunks() == g0.chunks().insert(chunk, g1.chunks()[chunk])
    &&& entries_view(g1.chunks()[chunk].entry_modules@) == entries_view(g0.chunks()[chunk].entry_modules@).filter(key_not(m)).push((m, entrypoint))
    &&& cgc_same_but_entries(g1.chunks()[chunk], g0.chunks()[chunk])
}

/// What making a module no longer an entry module of a chunk does: the
/// module's record loses the chunk, the chunk's entries lose the module (the
/// others keep their order), and nothing else changes.
pub open spec fn disconnected_entry(g0: ChunkGraph, g1: ChunkGraph, chunk: ChunkUkey, m: Seq<char>) -> bool {
    &&& g1.module_identifiers == g0.module_identifiers
    &&& g1.chunk_graph_modules@ == g0.chunk_graph_modules@.update(g0.module_index(m), g1.cgm(m))
    &&& g1.cgm(m).entry_in_chunks@ == g0.cgm(m).entry_in_chunks@.filter(all_but(chunk))
    &&& g1.cgm(m).entry_in_chunks@.to_set() == g0.cgm(m).entry_in_chunks@.to_set().remove(chunk)
    &&& g1.cgm(m).chunks == g0.cgm(m).chunks
    &&& g1.cgm(m).runtime_in_chunks == g0.cgm(m).runtime_in_chunks
    &&& g1.chunks() == g0.chunks().insert(chunk, g1.chunks()[chunk])
    &&& entries_view(g1.chunks()[chunk].entry_modules@) == entries_view(g0.chunks()[chunk].entry_modules@).filter(key_not(m))
    &&& cgc_same_but_entries(g1.chunks()[chunk], g0.chunks()[chunk])
}

/// What connecting a chunk and a module does: the module's record gains the
/// chunk, the chunk's record gains the module, and nothing else changes.
pub open spec fn connected_module(g0: ChunkGraph, g1: ChunkGraph, chunk: ChunkUkey, m: Seq<char>) -> bool {
    &&& g1.module_identifiers == g0.module_identifiers
    &&& g1.chunk_graph_modules@ == g0.chunk_graph_modules@.update(g0.module_index(m), g1.cgm(m))
    &&& g1.cgm(m).chunks@.to_set() == g0.cgm(m).chunks@.to_set().insert(chunk)
    &&& g1.cgm(m).entry_in_chunks == g0.cgm(m).entry_in_chunks
    &&& g1.cgm(m).runtime_in_chunks == g0.cgm(m).runtime_in_chunks
    &&& g1.chunks() == g0.chunks().insert(chunk, g1.chunks()[chunk])
    &&& id_set(g1.chunks()[chunk].modules@) == id_set(g0.chunks()[chunk].modules@).insert(m)
    &&& cgc_same_but_modules(g1.chunks()[chunk], g0.chunks()[chunk])
}

/// What disconnecting a chunk and a module does: the module's record loses
/// the chunk, the chunk's record loses the module (the others keep their
/// order), and nothing else changes.
pub open spec fn disconnected_module(g0: ChunkGraph, g1: ChunkGraph, chunk: ChunkUkey, m: Seq<char>) -> bool {
    &&& g1.module_identifiers == g0.module_identifiers
    &&& g1.chunk_graph_modules@ == g0.chunk_graph_modules@.update(g0.module_index(m), g1.cgm(m))
    &&& g1.cgm(m).chunks@ == g0.cgm(m).chunks@.filter(all_but(chunk))
    &&& g1.cgm(m).chunks@.to_set() == g0.cgm(m).chunks@.to_set().remove(chunk)
    &&& g1.cgm(m).entry_in_chunks == g0.cgm(m).entry_in_chunks
    &&& g1.cgm(m).runtime_in_chunks == g0.cgm(m).runtime_in_chunks
    &&& g1.chunks() == g0.chunks().insert(chunk, g1.chunks()[chunk])
    &&& ids_view(g1.chunks()[chunk].modules@) == ids_view(g0.chunks()[chunk].modules@).filter(all_but(m))
    &&& id_set(g1.chunks()[chunk].modules@) == id_set(g0.chunks()[chunk].modules@).remove(m)
    &&& cgc_same_but_modules(g1.chunks()[chunk], g0.chunks()[chunk])
}

impl ChunkGraph {
    /// The chunk records by chunk key.
    pub open spec fn chunks(&self) -> Map<ChunkUkey, ChunkGraphChunk> {
        self.chunk_graph_chunk_by_chunk_ukey@
    }

    /// The modules known to the graph.
    pub open spec fn module_ids(&self) -> Seq<Seq<char>> {
        ids_view(self.module_identifiers@)
    }

    /// Whether the graph knows the module.
    pub open spec fn has_module(&self, m: Seq<char>) -> bool {
        self.module_ids().contains(m)
    }

    /// Where the module's record stands.
    pub open spec fn module_index(&self, m: Seq<char>) -> int {
        self.module_ids().index_of(m)
    }

    /// The record of a known module.
    pub open spec fn cgm(&self, m: Seq<char>) -> ChunkGraphModule {
        self.chunk_graph_modules@[self.module_index(m)]
    }

    /// Every record holds nothing twice, and each known module has one record.
    pub open spec fn wf(&self) -> bool {
        &&& self.module_identifiers@.len() == self.chunk_graph_modules@.len()
        &&& ids_unique(self.module_identifiers@)
        &&& forall|i: int|
            0 <= i < self.chunk_graph_modules@.len() ==> cgm_wf(
                #[trigger] self.chunk_graph_modules@[i],
            )
        &&& forall|k: ChunkUkey| #[trigger]
            self.chunks().contains_key(k) ==> cgc_wf(self.chunks()[k])
    }

    /// The record of a known module stands where its identifier stands.
    pub proof fn lemma_module_index(&self, i: int)
        requires
            self.wf(),
            0 <= i < self.module_identifiers@.len(),
        ensures
            self.module_index(self.module_ids()[i]) == i,
            self.has_module(self.module_ids()[i]),
            self.cgm(self.module_ids()[i]) == self.chunk_graph_modules@[i],
    {
        let m = self.module_ids()[i];
        assert(self.module_ids().contains(m));
        let j = self.module_index(m);
        assert(0 <= j < self.module_ids().len() && self.module_ids()[j] == m);
    }

    /// A graph with no chunks and no modules.
    pub fn new() -> (r: ChunkGraph)
        ensures
            r.wf(),
            r.chunks() == Map::<ChunkUkey, ChunkGraphChunk>::empty(),
            r.module_ids() == Seq::<Seq<char>>::empty(),
    {
        let r = ChunkGraph {
            module_identifiers: Vec::new(),
            chunk_graph_modules: Vec::new(),
            chunk_graph_chunk_by_chunk_ukey: HashMap::new(),
        };
        assert(r.module_ids() =~= Seq::<Seq<char>>::empty());
        r
    }

    /// Position of a known module's record.
    pub(crate) fn module_position(&self, module_identifier: &ModuleIdentifier) -> (r: usize)
        requires
            self.wf(),
            self.has_module(module_identifier@),
        ensures
            r == self.module_index(module_identifier@),
            r < self.chunk_graph_modules@.len(),
            self.module_ids()[r as int] == module_identifier@,
    {
        match find_identifier(&self.module_identifiers, module_identifier) {
            Some(i) => {
                proof {
                    self.lemma_module_index(i as int);
                }
                i
            },
            None => {
                proof {
                    let j = choose|j: int|
                        0 <= j < self.module_ids().len() && self.module_ids()[j]
                            == module_identifier@;
                    assert(self.module_identifiers@[j]@ == module_identifier@);
                }
                0
            },
        }
    }

    /// Makes the graph know a module (with an empty record) unless it already does.
    pub fn add_module(&mut self, module_identifier: ModuleIdentifier)
        requires
            old(self).wf(),
        ensures
            final(self).wf(),
            added_module(*old(self), *final(self), module_identifier@),
    {
        if !crate::collections::contains_identifier(&self.module_identifiers, &module_identifier) {
            let ghost old_self = *self;
            self.module_identifiers.push(module_identifier);
            self.chunk_graph_modules.push(ChunkGraphModule::new());
            proof {
                assert(self.module_ids() =~= old_self.module_ids().push(
                    self.module_identifiers@.last()@,
                ));
                assert(self.chunk_graph_modules@.take(
                    old_self.chunk_graph_modules@.len() as int,
                ) =~= old_self.chunk_graph_modules@);
                assert(ids_unique(self.module_identifiers@)) by {
                    assert(ids_view(self.module_identifiers@) =~= old_self.module_ids().push(
                        module_identifier@,
                    ));
                }
                assert forall|i: int| 0 <= i < self.chunk_graph_modules@.len() implies cgm_wf(
                    #[trigger] self.chunk_graph_modules@[i],
                ) by {
                    if i < old_self.chunk_graph_modules@.len() {
                        assert(self.chunk_graph_modules@[i] == old_self.chunk_graph_modules@[i]);
                    }
                }
                assert(self.module_identifiers@.len() == self.chunk_graph_modules@.len());
                assert(self.chunks() == old(self).chunks());
                assert(self.wf());
                self.lemma_module_index(old_self.module_identifiers@.len() as int);
            }
        }
    }

    /// Makes the graph hold a chunk (with an empty record) unless it already does.
    pub fn add_chunk(&mut self, chunk_ukey: ChunkUkey)
        requires
            old(self).wf(),
        ensures
            final(self).wf(),
            added_chunk(*old(self), *final(self), chunk_ukey),
    {
        if !self.chunk_graph_chunk_by_chunk_ukey.contains_key(&chunk_ukey) {
            self.chunk_graph_chunk_by_chunk_ukey.insert(chunk_ukey, ChunkGraphChunk::new());
            proof {
                assert(self.chunks().remove(chunk_ukey) =~= old(self).chunks());
                assert(self.chunks().dom() =~= old(self).chunks().dom().insert(chunk_ukey));
            }
        }
    }

    /// Makes the graph hold a chunk with the given record; the chunk must be new.
    pub fn add_chunk_wit_chunk_graph_chunk(&mut self, chunk_ukey: ChunkUkey, cgc: ChunkGraphChunk)
        requires
            old(self).wf(),
            cgc_wf(cgc),
            !old(self).chunks().contains_key(chunk_ukey),
        ensures
            final(self).wf(),
            final(self).module_identifiers == old(self).module_identifiers,
            final(self).chunk_graph_modules == old(self).chunk_graph_modules,
            final(self).chunks() == old(self).chunks().insert(chunk_ukey, cgc),
    {
        self.chunk_graph_chunk_by_chunk_ukey.insert(chunk_ukey, cgc);
    }


    /// Takes a chunk's record out of the graph.
    fn take_chunk_graph_chunk(&mut self, chunk_ukey: ChunkUkey) -> (r: ChunkGraphChunk)
        requires
            old(self).chunks().contains_key(chunk_ukey),
        ensures
            r == old(self).chunks()[chunk_ukey],
            final(self).chunks() == old(self).chunks().remove(chunk_ukey),
            final(self).module_identifiers == old(self).module_identifiers,
            final(self).chunk_graph_modules == old(self).chunk_graph_modules,
    {
        match self.chunk_graph_chunk_by_chunk_ukey.remove(&chunk_ukey) {
            Some(c) => c,
            None => vstd::pervasive::unreached(),
        }
    }

    /// Records in both directions that `chunk` holds the module.
    pub fn connect_chunk_and_module(&mut self, chunk: ChunkUkey, module_identifier: ModuleIdentifier)
        requires
            old(self).wf(),
            old(self).chunks().contains_key(chunk),
            old(self).has_module(module_identifier@),
        ensures
            final(self).wf(),
            connected_module(*old(self), *final(self), chunk, module_identifier@),
    {
        let i = self.module_position(&module_identifier);
        insert_key(&mut self.chunk_graph_modules[i].chunks, chunk);
        let mut cgc = self.take_chunk_graph_chunk(chunk);
        insert_identifier(&mut cgc.modules, module_identifier);
        self.chunk_graph_chunk_by_chunk_ukey.insert(chunk, cgc);
        proof {
            self.lemma_module_index(i as int);
            assert(self.chunks().dom() =~= old(self).chunks().dom());
            assert(self.chunk_graph_modules@ =~= old(self).chunk_graph_modules@.update(i as int, self.cgm(module_identifier@)));
            assert(self.chunks() =~= old(self).chunks().insert(chunk, self.chunks()[chunk]));
        }
    }


    /// Records in both directions that `chunk` no longer holds the module.
    pub fn disconnect_chunk_and_module(
        &mut self,
        chunk: &ChunkUkey,
        module_identifier: ModuleIdentifier,
    )
        requires
            old(self).wf(),
            old(self).chunks().contains_key(*chunk),
            old(self).has_module(module_identifier@),
        ensures
            final(self).wf(),
            disconnected_module(*old(self), *final(self), *chunk, module_identifier@),
    {
        let i = self.module_position(&module_identifier);
        remove_key(&mut self.chunk_graph_modules[i].chunks, *chunk);
        let mut cgc = self.take_chunk_graph_chunk(*chunk);
        remove_identifier(&mut cgc.modules, &module_identifier);
        self.chunk_graph_chunk_by_chunk_ukey.insert(*chunk, cgc);
        proof {
            self.lemma_module_index(i as int);
            assert(self.chunks().dom() =~= old(self).chunks().dom());
            assert(self.chunk_graph_modules@ =~= old(self).chunk_graph_modules@.update(i as int, self.cgm(module_identifier@)));
            assert(self.chunks() =~= old(self).chunks().insert(*chunk, self.chunks()[*chunk]));
        }
    }

    /// Records in both directions that the module is an entry module of
    /// `chunk`, for `entrypoint`; it moves to the end of the chunk's entries.
    pub fn connect_chunk_and_entry_module(
        &mut self,
        chunk: ChunkUkey,
        module_identifier: ModuleIdentifier,
        entrypoint: ChunkGroupUkey,
    )
        requires
            old(self).wf(),
            old(self).chunks().contains_key(chunk),
            old(self).has_module(module_identifier@),
        ensures
            final(self).wf(),
            connected_entry(*old(self), *final(self), chunk, module_identifier@, entrypoint),
    {
        let i = self.module_position(&module_identifier);
        insert_key(&mut self.chunk_graph_modules[i].entry_in_chunks, chunk);
        let mut cgc = self.take_chunk_graph_chunk(chunk);
        insert_entry(&mut cgc.entry_modules, module_identifier, entrypoint);
        self.chunk_graph_chunk_by_chunk_ukey.insert(chunk, cgc);
        proof {
            self.lemma_module_index(i as int);
            assert(self.chunks().dom() =~= old(self).chunks().dom());
            assert(self.chunk_graph_modules@ =~= old(self).chunk_graph_modules@.update(i as int, self.cgm(module_identifier@)));
            assert(self.chunks() =~= old(self).chunks().insert(chunk, self.chunks()[chunk]));
        }
    }

    /// Records in both directions that the module is no longer an entry
    /// module of `chunk`.
    pub fn disconnect_chunk_and_entry_module(
        &mut self,
        chunk: ChunkUkey,
        module_identifier: ModuleIdentifier,
    )
        requires
            old(self).wf(),
            old(self).chunks().contains_key(chunk),
            old(self).has_module(module_identifier@),
        ensures
            final(self).wf(),
            disconnected_entry(*old(self), *final(self), chunk, module_identifier@),
    {
        let i = self.module_position(&module_identifier);
        remove_key(&mut self.chunk_graph_modules[i].entry_in_chunks, chunk);
        let mut cgc = self.take_chunk_graph_chunk(chunk);
        remove_entry(&mut cgc.entry_modules, &module_identifier);
        self.chunk_graph_chunk_by_chunk_ukey.insert(chunk, cgc);
        proof {
            self.lemma_module_index(i as int);
            assert(self.chunks().dom() =~= old(self).chunks().dom());
            assert(self.chunk_graph_modules@ =~= old(self).chunk_graph_modules@.update(i as int, self.cgm(module_identifier@)));
            assert(self.chunks() =~= old(self).chunks().insert(chunk, self.chunks()[chunk]));
        }
    }

    /// Records in both directions that the module is a runtime module of
    /// `chunk`; a new runtime module goes to the end of the chunk's list.
    pub fn connect_chunk_and_runtime_module(&mut self, chunk: ChunkUkey, identifier: ModuleIdentifier)
        requires
            old(self).wf(),
            old(self).chunks().contains_key(chunk),
            old(self).has_module(identifier@),
        ensures
            final(self).wf(),
            final(self).module_identifiers == old(self).module_identifiers,
            final(self).chunk_graph_modules@ == old(self).chunk_graph_modules@.update(
                old(self).module_index(identifier@),
                final(self).cgm(identifier@),
            ),
            final(self).cgm(identifier@).runtime_in_chunks@.to_set() == old(self).cgm(
                identifier@,
            ).runtime_in_chunks@.to_set().insert(chunk),
            final(self).cgm(identifier@).chunks == old(self).cgm(identifier@).chunks,
            final(self).cgm(identifier@).entry_in_chunks == old(self).cgm(
                identifier@,
            ).entry_in_chunks,
            final(self).chunks() == old(self).chunks().insert(chunk, final(self).chunks()[chunk]),
            ids_view(old(self).chunks()[chunk].runtime_modules@).contains(identifier@) ==> final(self).chunks()[chunk].runtime_modules@ == old(self).chunks()[chunk].runtime_modules@,
            !ids_view(old(self).chunks()[chunk].runtime_modules@).contains(identifier@) ==> final(self).chunks()[chunk].runtime_modules@ == old(self).chunks()[chunk].runtime_modules@.push(
                identifier,
            ),
            cgc_same_but_runtime_modules(final(self).chunks()[chunk], old(self).chunks()[chunk]),
    {
        let i = self.module_position(&identifier);
        insert_key(&mut self.chunk_graph_modules[i].runtime_in_chunks, chunk);
        let mut cgc = self.take_chunk_graph_chunk(chunk);
        insert_identifier(&mut cgc.runtime_modules, identifier);
        self.chunk_graph_chunk_by_chunk_ukey.insert(chunk, cgc);
        proof {
            self.lemma_module_index(i as int);
            assert(self.chunks().dom() =~= old(self).chunks().dom());
        }
    }

    /// The entry modules of a chunk, in order.
    pub fn get_chunk_entry_modules(&self, chunk_ukey: &ChunkUkey) -> (r: Vec<ModuleIdentifier>)
        requires
            self.chunks().contains_key(*chunk_ukey),
        ensures
            ids_view(r@) == entry_keys(self.chunks()[*chunk_ukey].entry_modules@),
    {
        let chunk_graph_chunk = self.get_chunk_graph_chunk(chunk_ukey);
        let mut r: Vec<ModuleIdentifier> = Vec::new();
        let mut i: usize = 0;
        while i < chunk_graph_chunk.entry_modules.len()
            invariant
                i <= chunk_graph_chunk.entry_modules@.len(),
                ids_view(r@) == entry_keys(chunk_graph_chunk.entry_modules@).take(i as int),
            decreases chunk_graph_chunk.entry_modules@.len() - i,
        {
            let id = chunk_graph_chunk.entry_modules[i].0.clone();
            let ghost old_r = r@;
            r.push(id);
            proof {
                assert(ids_view(r@) =~= ids_view(old_r).push(
                    chunk_graph_chunk.entry_modules@[i as int].0@,
                ));
                assert(ids_view(r@) =~= entry_keys(chunk_graph_chunk.entry_modules@).take(
                    i + 1,
                ));
            }
            i = i + 1;
        }
        proof {
            assert(entry_keys(chunk_graph_chunk.entry_modules@).take(
                chunk_graph_chunk.entry_modules@.len() as int,
            ) =~= entry_keys(chunk_graph_chunk.entry_modules@));
        }
        r
    }

    /// The entry modules of a chunk with their entrypoints, in order.
    pub fn get_chunk_entry_modules_with_chunk_group_iterable(&self, chunk_ukey: &ChunkUkey) -> (r:
        &Vec<(ModuleIdentifier, ChunkGroupUkey)>)
        requires
            self.chunks().contains_key(*chunk_ukey),
        ensures
            *r == self.chunks()[*chunk_ukey].entry_modules,
    {
        let cgc = self.get_chunk_graph_chunk(chunk_ukey);
        &cgc.entry_modules
    }

    /// The modules of a chunk.
    pub fn get_chunk_module_identifiers(&self, chunk: &ChunkUkey) -> (r: &Vec<ModuleIdentifier>)
        requires
            self.chunks().contains_key(*chunk),
        ensures
            *r == self.chunks()[*chunk].modules,
    {
        let chunk_graph_chunk = self.get_chunk_graph_chunk(chunk);
        &chunk_graph_chunk.modules
    }

    /// How many modules a chunk holds.
    pub fn get_number_of_chunk_modules(&self, chunk: &ChunkUkey) -> (r: usize)
        requires
            self.chunks().contains_key(*chunk),
        ensures
            r == self.chunks()[*chunk].modules@.len(),
    {
        let cgc = self.get_chunk_graph_chunk(chunk);
        cgc.modules.len()
    }

    /// How many entry modules a chunk holds.
    pub fn get_number_of_entry_modules(&self, chunk: &ChunkUkey) -> (r: usize)
        requires
            self.chunks().contains_key(*chunk),
        ensures
            r == self.chunks()[*chunk].entry_modules@.len(),
    {
        let cgc = self.get_chunk_graph_chunk(chunk);
        cgc.entry_modules.len()
    }

    /// Adds runtime globals to what a chunk requires.
    pub fn add_chunk_runtime_requirements(
        &mut self,
        chunk_ukey: &ChunkUkey,
        runtime_requirements: RuntimeGlobals,
    )
        requires
            old(self).wf(),
            old(self).chunks().contains_key(*chunk_ukey),
        ensures
            final(self).wf(),
            final(self).module_identifiers == old(self).module_identifiers,
            final(self).chunk_graph_modules == old(self).chunk_graph_modules,
            final(self).chunks() == old(self).chunks().insert(
                *chunk_ukey,
                final(self).chunks()[*chunk_ukey],
            ),
            final(self).chunks()[*chunk_ukey].runtime_requirements.bits == old(self).chunks()[*chunk_ukey].runtime_requirements.bits | runtime_requirements.bits,
            cgc_same_but_requirements(
                final(self).chunks()[*chunk_ukey],
                old(self).chunks()[*chunk_ukey],
            ),
    {
        let mut cgc = self.take_chunk_graph_chunk(*chunk_ukey);
        cgc.runtime_requirements.add(runtime_requirements);
        self.chunk_graph_chunk_by_chunk_ukey.insert(*chunk_ukey, cgc);
        proof {
            assert(self.chunks().dom() =~= old(self).chunks().dom());
        }
    }

    /// Adds runtime globals to what a chunk's tree requires (the chunk's own).
    pub fn add_tree_runtime_requirements(
        &mut self,
        chunk_ukey: &ChunkUkey,
        runtime_requirements: RuntimeGlobals,
    )
        requires
            old(self).wf(),
            old(self).chunks().contains_key(*chunk_ukey),
        ensures
            final(self).wf(),
            final(self).module_identifiers == old(self).module_identifiers,
            final(self).chunk_graph_modules == old(self).chunk_graph_modules,
            final(self).chunks() == old(self).chunks().insert(
                *chunk_ukey,
                final(self).chunks()[*chunk_ukey],
            ),
            final(self).chunks()[*chunk_ukey].runtime_requirements.bits == old(self).chunks()[*chunk_ukey].runtime_requirements.bits | runtime_requirements.bits,
            cgc_same_but_requirements(
                final(self).chunks()[*chunk_ukey],
                old(self).chunks()[*chunk_ukey],
            ),
    {
        self.add_chunk_runtime_requirements(chunk_ukey, runtime_requirements);
    }

    /// The runtime globals a chunk requires.
    pub fn get_chunk_runtime_requirements(&self, chunk_ukey: &ChunkUkey) -> (r: &RuntimeGlobals)
        requires
            self.chunks().contains_key(*chunk_ukey),
        ensures
            *r == self.chunks()[*chunk_ukey].runtime_requirements,
    {
        let cgc = self.get_chunk_graph_chunk(chunk_ukey);
        &cgc.runtime_requirements
    }

    /// The runtime globals a chunk's tree requires (the chunk's own).
    pub fn get_tree_runtime_requirements(&self, chunk_ukey: &ChunkUkey) -> (r: &RuntimeGlobals)
        requires
            self.chunks().contains_key(*chunk_ukey),
        ensures
            *r == self.chunks()[*chunk_ukey].runtime_requirements,
    {
        self.get_chunk_runtime_requirements(chunk_ukey)
    }

    /// The runtime modules of a chunk, in the order they came.
    pub fn get_chunk_runtime_modules_in_order(&self, chunk_ukey: &ChunkUkey) -> (r: &Vec<
        ModuleIdentifier,
    >)
        requires
            self.chunks().contains_key(*chunk_ukey),
        ensures
            *r == self.chunks()[*chunk_ukey].runtime_modules,
    {
        let cgc = self.get_chunk_graph_chunk(chunk_ukey);
        &cgc.runtime_modules
    }

    /// The runtime modules of a chunk, in the order they came, to go through.
    pub fn get_chunk_runtime_modules_iterable(&self, chunk_ukey: &ChunkUkey) -> (r: &[ModuleIdentifier])
        requires
            self.chunks().contains_key(*chunk_ukey),
        ensures
            r@ == self.chunks()[*chunk_ukey].runtime_modules@,
    {
        let cgc = self.get_chunk_graph_chunk(chunk_ukey);
        cgc.runtime_modules.as_slice()
    }

    /// The record of a chunk the graph holds.
    pub fn get_chunk_graph_chunk(&self, chunk_ukey: &ChunkUkey) -> (r: &ChunkGraphChunk)
        requires
            self.chunks().contains_key(*chunk_ukey),
        ensures
            *r == self.chunks()[*chunk_ukey],
    {
        match self.chunk_graph_chunk_by_chunk_ukey.get(chunk_ukey) {
            Some(c) => c,
            None => vstd::pervasive::unreached(),
        }
    }
}

} // verus!
