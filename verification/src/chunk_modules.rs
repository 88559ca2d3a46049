//! What the chunk graph tells about a chunk's modules from the module graph:
//! the modules themselves, by source type, in order, and their sizes.

use crate::chunk::{chunk_can_be_initial, Chunk, ChunkGroupByUkey};
use crate::chunk_graph::{ChunkGraph, ChunkSizeOptions};
use crate::collections::{contains_identifier, ids_view};
use crate::comparators::Identifier;
use crate::module_graph::{
    lemma_module_sizes_sum_monotone, lemma_modules_size_nonneg, module_graph_module_of, module_of,
    module_sizes_sum, module_total_size, modules_size, Module, ModuleGraph, ModuleGraphModule,
    ModuleIdentifier, SourceType,
};
use vstd::prelude::*;

verus! {

/// Looks an identifier up in the module graph.
pub open spec fn lookup_module(g: ModuleGraph) -> spec_fn(Identifier) -> Option<Module> {
    |id: Identifier| module_of(g, id@)
}

/// Looks an identifier up in the module graph, keeping the module only if
/// it contributes source type `t`.
pub open spec fn lookup_module_of_type(g: ModuleGraph, t: SourceType) -> spec_fn(Identifier) -> Option<
    Module,
> {
    |id: Identifier|
        match module_of(g, id@) {
            Some(m) => if m.source_types@.contains(t) {
                Some(m)
            } else {
                None
            },
            None => None,
        }
}

/// Looks an identifier up among the module-graph entries, keeping the entry
/// only if its module is in the graph and contributes source type `t`.
pub open spec fn lookup_entry_of_type(g: ModuleGraph, t: SourceType) -> spec_fn(Identifier) -> Option<
    ModuleGraphModule,
> {
    |id: Identifier|
        match module_graph_module_of(g, id@) {
            Some(mgm) => match module_of(g, mgm.module_identifier@) {
                Some(m) => if m.source_types@.contains(t) {
                    Some(mgm)
                } else {
                    None
                },
                None => None,
            },
            None => None,
        }
}

/// The values behind a sequence of references.
pub open spec fn derefs<A>(s: Seq<&A>) -> Seq<A> {
    s.map_values(|x: &A| *x)
}

/// The identifiers of `b` not in `a`, in order, after those of `a`, each
/// added once.
pub open spec fn union_ids(a: Seq<Identifier>, b: Seq<Identifier>) -> Seq<Identifier>
    decreases b.len(),
{
    if b.len() == 0 {
        a
    } else {
        let u = union_ids(a, b.drop_last());
        if ids_view(u).contains(b.last()@) {
            u
        } else {
            u.push(b.last())
        }
    }
}

/// How a negative `i32` turns into a `u64` under `as`: it wraps around.
pub open spec fn i32_as_u64(x: i32) -> int {
    if x >= 0 {
        x as int
    } else {
        x + 0x1_0000_0000_0000_0000
    }
}

/// The overhead a chunk adds to a size estimate (10000 unless set).
pub open spec fn chunk_overhead(options: ChunkSizeOptions) -> int {
    match options.chunk_overhead {
        Some(x) => i32_as_u64(x),
        None => 10000,
    }
}

/// The weight of an entry chunk in a size estimate (10 unless set).
pub open spec fn entry_chunk_multiplicator(options: ChunkSizeOptions) -> int {
    match options.entry_chunk_multiplicator {
        Some(x) => i32_as_u64(x),
        None => 10,
    }
}

/// The size estimate of a chunk with the given modules.
pub open spec fn chunk_size(
    modules: Seq<Identifier>,
    chunk: Chunk,
    options: ChunkSizeOptions,
    g: ModuleGraph,
    groups: Map<u64, crate::chunk::ChunkGroup>,
) -> int {
    chunk_overhead(options) + modules_size(modules, g) + if chunk_can_be_initial(chunk, groups) {
        entry_chunk_multiplicator(options)
    } else {
        1
    }
}

/// The size estimate of the chunk that two chunks with the given modules
/// would make together.
pub open spec fn integrated_chunk_size(
    a: Seq<Identifier>,
    b: Seq<Identifier>,
    options: ChunkSizeOptions,
    g: ModuleGraph,
) -> int {
    chunk_overhead(options) + entry_chunk_multiplicator(options) + modules_size(union_ids(a, b), g)
}

/// The size estimate of a chunk is made of three parts: the configured
/// overhead (10000 unless set; a negative one wraps around as a `u64`), the
/// sizes of its modules, and the configured entry multiplicator (10 unless
/// set) for a chunk that can be initial, 1 for one that cannot. The
/// overhead is the same whether the chunk can be initial or not, so two
/// chunks with the same modules differ in size by the multiplicator less
/// one exactly when one can be initial and the other cannot.
pub proof fn law_chunk_size_parts(
    modules: Seq<Identifier>,
    chunk: Chunk,
    other: Chunk,
    options: ChunkSizeOptions,
    g: ModuleGraph,
    groups: Map<u64, crate::chunk::ChunkGroup>,
)
    ensures
        chunk_size(modules, chunk, options, g, groups) == (match options.chunk_overhead {
            Some(x) => if x >= 0 { x as int } else { x + 0x1_0000_0000_0000_0000 },
            None => 10000,
        }) + modules_size(modules, g) + if chunk_can_be_initial(chunk, groups) {
            match options.entry_chunk_multiplicator {
                Some(x) => if x >= 0 { x as int } else { x + 0x1_0000_0000_0000_0000 },
                None => 10,
            }
        } else {
            1
        },
        options.chunk_overhead is None && !chunk_can_be_initial(chunk, groups) ==> chunk_size(modules, chunk, options, g, groups)
            == 10000 + modules_size(modules, g) + 1,
        chunk_can_be_initial(chunk, groups) && !chunk_can_be_initial(other, groups) ==> chunk_size(modules, chunk, options, g, groups)
            - chunk_size(modules, other, options, g, groups) == entry_chunk_multiplicator(options) - 1,
        chunk_can_be_initial(chunk, groups) == chunk_can_be_initial(other, groups) ==> chunk_size(modules, chunk, options, g, groups)
            == chunk_size(modules, other, options, g, groups),
{
}

/// The chunk two chunks make together is estimated as a chunk that can be
/// initial and holds the modules of either, each once.
pub proof fn law_integrated_size_is_initial_chunk_size(
    a: Seq<Identifier>,
    b: Seq<Identifier>,
    chunk: Chunk,
    options: ChunkSizeOptions,
    g: ModuleGraph,
    groups: Map<u64, crate::chunk::ChunkGroup>,
)
    requires
        chunk_can_be_initial(chunk, groups),
    ensures
        integrated_chunk_size(a, b, options, g) == chunk_size(union_ids(a, b), chunk, options, g, groups),
        integrated_chunk_size(a, b, options, g) == (match options.chunk_overhead {
            Some(x) => if x >= 0 { x as int } else { x + 0x1_0000_0000_0000_0000 },
            None => 10000,
        }) + (match options.entry_chunk_multiplicator {
            Some(x) => if x >= 0 { x as int } else { x + 0x1_0000_0000_0000_0000 },
            None => 10,
        }) + modules_size(union_ids(a, b), g),
{
}

/// `x as u64` for an `i32`.
fn i32_to_u64(x: i32) -> (r: u64)
    ensures
        r == i32_as_u64(x),
{
    if x >= 0 {
        x as u64
    } else {
        let d: u64 = (-((x as i64) + 1)) as u64;
        u64::MAX - d
    }
}

/// Sizes of a prefix of a list never exceed the size of the list.
pub proof fn lemma_modules_size_prefix(ids: Seq<Identifier>, g: ModuleGraph, i: int)
    requires
        0 <= i <= ids.len(),
    ensures
        0 <= modules_size(ids.take(i), g) <= modules_size(ids, g),
    decreases ids.len(),
{
    lemma_modules_size_nonneg(ids.take(i), g);
    if i < ids.len() {
        lemma_modules_size_prefix(ids.drop_last(), g, i);
        assert(ids.drop_last().take(i) =~= ids.take(i));
        if let Some(m) = module_of(g, ids.last()@) {
            lemma_module_sizes_sum_monotone(m, 0, m.source_types@.len() as int);
        }
    } else {
        assert(ids.take(i) =~= ids);
    }
}

impl ChunkGraph {
    /// The modules of a chunk that the module graph has.
    pub fn get_chunk_modules<'module>(
        &self,
        chunk: &crate::chunk::ChunkUkey,
        module_graph: &'module ModuleGraph,
    ) -> (r: Vec<&'module Module>)
        requires
            self.chunks().contains_key(*chunk),
        ensures
            derefs(r@) == self.chunks()[*chunk].modules@.filter_map(lookup_module(*module_graph)),
    {
        let chunk_graph_chunk = self.get_chunk_graph_chunk(chunk);
        let ghost ms = chunk_graph_chunk.modules@;
        let mut r: Vec<&'module Module> = Vec::new();
        let mut i: usize = 0;
        while i < chunk_graph_chunk.modules.len()
            invariant
                ms == chunk_graph_chunk.modules@,
                i <= ms.len(),
                derefs(r@) == ms.take(i as int).filter_map(lookup_module(*module_graph)),
            decreases ms.len() - i,
        {
            proof {
                ms.lemma_filter_map_take_succ(lookup_module(*module_graph), i as int);
            }
            let ghost old_r = r@;
            match module_graph.module_by_identifier(&chunk_graph_chunk.modules[i]) {
                Some(m) => {
                    r.push(m);
                    proof {
                        assert(derefs(r@) =~= derefs(old_r) + seq![*m]);
                    }
                },
                None => {},
            }
            i = i + 1;
        }
        proof {
            assert(ms.take(ms.len() as int) =~= ms);
        }
        r
    }

    /// The modules of a chunk that the module graph has and that contribute
    /// `source_type`.
    pub fn get_chunk_modules_iterable_by_source_type<'module>(
        &self,
        chunk: &crate::chunk::ChunkUkey,
        source_type: SourceType,
        module_graph: &'module ModuleGraph,
    ) -> (r: Vec<&'module Module>)
        requires
            self.chunks().contains_key(*chunk),
        ensures
            derefs(r@) == self.chunks()[*chunk].modules@.filter_map(
                lookup_module_of_type(*module_graph, source_type),
            ),
    {
        let chunk_graph_chunk = self.get_chunk_graph_chunk(chunk);
        let ghost ms = chunk_graph_chunk.modules@;
        let ghost f = lookup_module_of_type(*module_graph, source_type);
        let mut r: Vec<&'module Module> = Vec::new();
        let mut i: usize = 0;
        while i < chunk_graph_chunk.modules.len()
            invariant
                ms == chunk_graph_chunk.modules@,
                f == lookup_module_of_type(*module_graph, source_type),
                i <= ms.len(),
                derefs(r@) == ms.take(i as int).filter_map(f),
            decreases ms.len() - i,
        {
            proof {
                ms.lemma_filter_map_take_succ(f, i as int);
            }
            let ghost old_r = r@;
            match module_graph.module_by_identifier(&chunk_graph_chunk.modules[i]) {
                Some(m) => {
                    if m.has_source_type(source_type) {
                        r.push(m);
                        proof {
                            assert(derefs(r@) =~= derefs(old_r) + seq![*m]);
                        }
                    }
                },
                None => {},
            }
            i = i + 1;
        }
        proof {
            assert(ms.take(ms.len() as int) =~= ms);
        }
        r
    }

    /// The module-graph entries of the modules of a chunk whose module the
    /// graph has and contributes `source_type`.
    pub fn get_chunk_modules_by_source_type<'module>(
        &self,
        chunk: &crate::chunk::ChunkUkey,
        source_type: SourceType,
        module_graph: &'module ModuleGraph,
    ) -> (r: Vec<&'module ModuleGraphModule>)
        requires
            self.chunks().contains_key(*chunk),
        ensures
            derefs(r@) == self.chunks()[*chunk].modules@.filter_map(
                lookup_entry_of_type(*module_graph, source_type),
            ),
    {
        let chunk_graph_chunk = self.get_chunk_graph_chunk(chunk);
        let ghost ms = chunk_graph_chunk.modules@;
        let ghost f = lookup_entry_of_type(*module_graph, source_type);
        let mut r: Vec<&'module ModuleGraphModule> = Vec::new();
        let mut i: usize = 0;
        while i < chunk_graph_chunk.modules.len()
            invariant
                ms == chunk_graph_chunk.modules@,
                f == lookup_entry_of_type(*module_graph, source_type),
                i <= ms.len(),
                derefs(r@) == ms.take(i as int).filter_map(f),
            decreases ms.len() - i,
        {
            proof {
                ms.lemma_filter_map_take_succ(f, i as int);
            }
            let ghost old_r = r@;
            match module_graph.module_graph_module_by_identifier(&chunk_graph_chunk.modules[i]) {
                Some(mgm) => {
                    match module_graph.module_by_identifier(&mgm.module_identifier) {
                        Some(m) => {
                            if m.has_source_type(source_type) {
                                r.push(mgm);
                                proof {
                                    assert(derefs(r@) =~= derefs(old_r) + seq![*mgm]);
                                }
                            }
                        },
                        None => {},
                    }
                },
                None => {},
            }
            i = i + 1;
        }
        proof {
            assert(ms.take(ms.len() as int) =~= ms);
        }
        r
    }

    /// The total size of the modules of a list that the module graph has:
    /// for each, the sizes it reports for each of its source types.
    pub fn get_modules_size(&self, modules: Vec<ModuleIdentifier>, module_graph: &ModuleGraph) -> (r:
        u64)
        requires
            modules_size(modules@, *module_graph) <= u64::MAX,
        ensures
            r == modules_size(modules@, *module_graph),
    {
        let mut size: u64 = 0;
        let mut i: usize = 0;
        while i < modules.len()
            invariant
                i <= modules@.len(),
                modules_size(modules@, *module_graph) <= u64::MAX,
                size == modules_size(modules@.take(i as int), *module_graph),
            decreases modules@.len() - i,
        {
            proof {
                lemma_modules_size_prefix(modules@, *module_graph, i + 1);
                assert(modules@.take(i + 1).drop_last() =~= modules@.take(i as int));
                assert(modules@.take(i + 1).last() == modules@[i as int]);
            }
            match module_graph.module_by_identifier(&modules[i]) {
                Some(module) => {
                    let source_types = module.source_types();
                    let mut j: usize = 0;
                    let ghost base = size as int;
                    while j < source_types.len()
                        invariant
                            *source_types == module.source_types,
                            j <= source_types@.len(),
                            base + module_total_size(*module) <= u64::MAX,
                            size == base + module_sizes_sum(*module, j as int),
                        decreases source_types@.len() - j,
                    {
                        proof {
                            lemma_module_sizes_sum_monotone(
                                *module,
                                j + 1,
                                module.source_types@.len() as int,
                            );
                        }
                        size = size + module.size(source_types[j]);
                        j = j + 1;
                    }
                },
                None => {},
            }
            i = i + 1;
        }
        proof {
            assert(modules@.take(modules@.len() as int) =~= modules@);
        }
        size
    }

    /// Estimated size of a chunk: the overhead, the size of its modules, and
    /// the entry multiplicator when the chunk can be initial (else 1).
    pub fn get_chunk_size(
        &self,
        chunk: &Chunk,
        options: ChunkSizeOptions,
        module_graph: &ModuleGraph,
        chunk_group_by_ukey: &ChunkGroupByUkey,
    ) -> (r: u64)
        requires
            self.chunks().contains_key(chunk.ukey),
            chunk_size(self.chunks()[chunk.ukey].modules@, *chunk, options, *module_graph, chunk_group_by_ukey@) <= u64::MAX,
        ensures
            r == chunk_size(self.chunks()[chunk.ukey].modules@, *chunk, options, *module_graph, chunk_group_by_ukey@),
    {
        let chunk_ukey = &chunk.ukey;
        let cgc = self.get_chunk_graph_chunk(chunk_ukey);
        proof {
            lemma_modules_size_nonneg(cgc.modules@, *module_graph);
        }
        let modules_size = self.get_modules_size(cgc.modules.clone(), module_graph);
        let chunk_overhead: i32 = match options.chunk_overhead {
            None => 10000,
            Some(x) => x,
        };
        let entry_chunk_multiplicator: i32 = match options.entry_chunk_multiplicator {
            None => 10,
            Some(x) => x,
        };
        let extra: u64 = if chunk.can_be_initial(chunk_group_by_ukey) {
            i32_to_u64(entry_chunk_multiplicator)
        } else {
            1
        };
        i32_to_u64(chunk_overhead) + modules_size + extra
    }

    /// Estimated size of the chunk two chunks would make together: the
    /// overhead, the entry multiplicator, and the size of the modules of either.
    pub fn get_integrated_chunk_size(
        &mut self,
        chunk_a: &Chunk,
        chunk_b: &Chunk,
        module_graph: &ModuleGraph,
        options: ChunkSizeOptions,
    ) -> (r: u64)
        requires
            old(self).wf(),
            old(self).chunks().contains_key(chunk_a.ukey),
            old(self).chunks().contains_key(chunk_b.ukey),
            integrated_chunk_size(old(self).chunks()[chunk_a.ukey].modules@, old(self).chunks()[chunk_b.ukey].modules@, options, *module_graph) <= u64::MAX,
        ensures
            *final(self) == *old(self),
            r == integrated_chunk_size(old(self).chunks()[chunk_a.ukey].modules@, old(self).chunks()[chunk_b.ukey].modules@, options, *module_graph),
    {
        let cgca = self.get_chunk_graph_chunk(&chunk_a.ukey);
        let mut all_modules = cgca.modules.clone();
        let cgcb = self.get_chunk_graph_chunk(&chunk_b.ukey);
        let mut i: usize = 0;
        while i < cgcb.modules.len()
            invariant
                i <= cgcb.modules@.len(),
                crate::collections::ids_unique(all_modules@),
                all_modules@ == union_ids(cgca.modules@, cgcb.modules@.take(i as int)),
            decreases cgcb.modules@.len() - i,
        {
            proof {
                assert(cgcb.modules@.take(i + 1).drop_last() =~= cgcb.modules@.take(i as int));
            }
            crate::collections::insert_identifier(&mut all_modules, cgcb.modules[i].clone());
            i = i + 1;
        }
        proof {
            assert(cgcb.modules@.take(cgcb.modules@.len() as int) =~= cgcb.modules@);
            lemma_modules_size_nonneg(all_modules@, *module_graph);
        }
        let modules_size = self.get_modules_size(all_modules, module_graph);
        let chunk_overhead: i32 = match options.chunk_overhead {
            None => 10000,
            Some(x) => x,
        };
        let entry_chunk_multiplicator: i32 = match options.entry_chunk_multiplicator {
            None => 10,
            Some(x) => x,
        };
        i32_to_u64(chunk_overhead) + i32_to_u64(entry_chunk_multiplicator) + modules_size
    }
}

} // verus!
