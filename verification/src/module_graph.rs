//! Modules and the module graph, as far as chunk-graph bookkeeping reads them.

use crate::comparators::Identifier;
use vstd::prelude::*;

verus! {

/// Identifier of a module.
pub type ModuleIdentifier = Identifier;

/// A kind of generated source a module contributes.
#[derive(Clone, Copy, PartialEq, Eq, Structural, Debug)]
pub enum SourceType {
    JavaScript,
    Css,
    Wasm,
    Asset,
    Expose,
    Remote,
    ShareInit,
    ConsumeShared,
    Unknown,
}

/// A module: its identifier, the source types it contributes and, for each
/// of them (same position), its size as a whole number.
pub struct Module {
    pub identifier: ModuleIdentifier,
    pub source_types: Vec<SourceType>,
    pub sizes: Vec<u64>,
}

/// A module's entry in the module graph.
pub struct ModuleGraphModule {
    pub module_identifier: ModuleIdentifier,
}

/// The modules of a compilation.
pub struct ModuleGraph {
    pub modules: Vec<Module>,
    pub module_graph_modules: Vec<ModuleGraphModule>,
}

/// The first position in `s` whose element satisfies `p`, or -1.
pub open spec fn first_match<A>(s: Seq<A>, p: spec_fn(A) -> bool) -> int
    decreases s.len(),
{
    if s.len() == 0 {
        -1
    } else if p(s[0]) {
        0
    } else {
        let r = first_match(s.drop_first(), p);
        if r < 0 {
            -1
        } else {
            r + 1
        }
    }
}

/// Position facts about `first_match`.
pub proof fn lemma_first_match<A>(s: Seq<A>, p: spec_fn(A) -> bool)
    ensures
        -1 <= first_match(s, p) < s.len(),
        first_match(s, p) >= 0 ==> p(s[first_match(s, p)]),
        forall|j: int|
            0 <= j < s.len() && (first_match(s, p) < 0 || j < first_match(s, p)) ==> !p(
                #[trigger] s[j],
            ),
    decreases s.len(),
{
    if s.len() > 0 {
        lemma_first_match(s.drop_first(), p);
        assert forall|j: int|
            0 <= j < s.len() && (first_match(s, p) < 0 || j < first_match(s, p)) implies !p(
            #[trigger] s[j],
        ) by {
            if j > 0 {
                assert(s[j] == s.drop_first()[j - 1]);
            }
        }
    }
}

/// The source type is `t`.
pub open spec fn is_type(t: SourceType) -> spec_fn(SourceType) -> bool {
    |x: SourceType| x == t
}

/// The module's identifier is `id`.
pub open spec fn module_named(id: Seq<char>) -> spec_fn(Module) -> bool {
    |m: Module| m.identifier@ == id
}

/// The module-graph entry's identifier is `id`.
pub open spec fn entry_named(id: Seq<char>) -> spec_fn(ModuleGraphModule) -> bool {
    |m: ModuleGraphModule| m.module_identifier@ == id
}

/// The module whose identifier is `id`: the first such in the graph.
pub open spec fn module_of(g: ModuleGraph, id: Seq<char>) -> Option<Module> {
    let i = first_match(g.modules@, module_named(id));
    if i < 0 {
        None
    } else {
        Some(g.modules@[i])
    }
}

/// The module-graph entry of the module whose identifier is `id`.
pub open spec fn module_graph_module_of(g: ModuleGraph, id: Seq<char>) -> Option<
    ModuleGraphModule,
> {
    let i = first_match(g.module_graph_modules@, entry_named(id));
    if i < 0 {
        None
    } else {
        Some(g.module_graph_modules@[i])
    }
}

/// The size a module reports for a source type: the one stored with the
/// first occurrence of that type, or 0 when it has none.
pub open spec fn module_size(m: Module, t: SourceType) -> int {
    let i = first_match(m.source_types@, is_type(t));
    if 0 <= i < m.sizes@.len() {
        m.sizes@[i] as int
    } else {
        0
    }
}

/// The sizes a module reports for its first `n` source types, added up.
pub open spec fn module_sizes_sum(m: Module, n: int) -> int
    decreases n,
{
    if n <= 0 {
        0
    } else {
        module_sizes_sum(m, n - 1) + module_size(m, m.source_types@[n - 1])
    }
}

/// The sizes a module reports for all its source types, added up.
pub open spec fn module_total_size(m: Module) -> int {
    module_sizes_sum(m, m.source_types@.len() as int)
}

/// The sum over a list of identifiers of the total size of each module found
/// in the graph (identifiers with no module add nothing).
pub open spec fn modules_size(ids: Seq<Identifier>, g: ModuleGraph) -> int
    decreases ids.len(),
{
    if ids.len() == 0 {
        0
    } else {
        modules_size(ids.drop_last(), g) + match module_of(g, ids.last()@) {
            Some(m) => module_total_size(m),
            None => 0,
        }
    }
}

/// Partial sums of sizes are never negative.
pub proof fn lemma_module_sizes_sum_nonneg(m: Module, n: int)
    ensures
        0 <= module_sizes_sum(m, n),
    decreases n,
{
    if n > 0 {
        lemma_module_sizes_sum_nonneg(m, n - 1);
    }
}

/// Partial sums of sizes never decrease.
pub proof fn lemma_module_sizes_sum_monotone(m: Module, a: int, b: int)
    requires
        0 <= a <= b,
    ensures
        0 <= module_sizes_sum(m, a) <= module_sizes_sum(m, b),
    decreases b,
{
    lemma_module_sizes_sum_nonneg(m, a);
    if a < b {
        lemma_module_sizes_sum_monotone(m, a, b - 1);
    }
}

/// Sizes of lists of modules are never negative.
pub proof fn lemma_modules_size_nonneg(ids: Seq<Identifier>, g: ModuleGraph)
    ensures
        modules_size(ids, g) >= 0,
    decreases ids.len(),
{
    if ids.len() > 0 {
        lemma_modules_size_nonneg(ids.drop_last(), g);
        if let Some(m) = module_of(g, ids.last()@) {
            lemma_module_sizes_sum_monotone(m, 0, m.source_types@.len() as int);
        }
    }
}

impl Module {
    /// The module's identifier.
    pub fn identifier(&self) -> (r: &ModuleIdentifier)
        ensures
            *r == self.identifier,
    {
        &self.identifier
    }

    /// The source types the module contributes.
    pub fn source_types(&self) -> (r: &Vec<SourceType>)
        ensures
            *r == self.source_types,
    {
        &self.source_types
    }

    /// The size the module reports for a source type.
    pub fn size(&self, source_type: SourceType) -> (r: u64)
        ensures
            r == module_size(*self, source_type),
    {
        proof {
            lemma_first_match(self.source_types@, is_type(source_type));
        }
        let mut i: usize = 0;
        while i < self.source_types.len()
            invariant
                i <= self.source_types@.len(),
                forall|j: int| 0 <= j < i ==> self.source_types@[j] != source_type,
                -1 <= first_match(self.source_types@, is_type(source_type))
                    < self.source_types@.len(),
                first_match(self.source_types@, is_type(source_type)) >= 0
                    ==> self.source_types@[first_match(
                    self.source_types@,
                    is_type(source_type),
                )] == source_type,
                forall|j: int|
                    0 <= j < self.source_types@.len() && (first_match(
                        self.source_types@,
                        is_type(source_type),
                    ) < 0 || j < first_match(self.source_types@, is_type(source_type)))
                        ==> self.source_types@[j] != source_type,
            decreases self.source_types@.len() - i,
        {
            if self.source_types[i] == source_type {
                if i < self.sizes.len() {
                    return self.sizes[i];
                } else {
                    return 0;
                }
            }
            i = i + 1;
        }
        0
    }

    /// Whether the module contributes `source_type`.
    pub fn has_source_type(&self, source_type: SourceType) -> (r: bool)
        ensures
            r == self.source_types@.contains(source_type),
    {
        let mut i: usize = 0;
        while i < self.source_types.len()
            invariant
                i <= self.source_types@.len(),
                forall|j: int| 0 <= j < i ==> self.source_types@[j] != source_type,
            decreases self.source_types@.len() - i,
        {
            if self.source_types[i] == source_type {
                return true;
            }
            i = i + 1;
        }
        false
    }
}

impl ModuleGraph {
    /// The module whose identifier is `id`, if the graph has one.
    pub fn module_by_identifier(&self, id: &ModuleIdentifier) -> (r: Option<&Module>)
        ensures
            match r {
                Some(m) => module_of(*self, id@) == Some(*m),
                None => module_of(*self, id@) is None,
            },
    {
        proof {
            lemma_first_match(self.modules@, module_named(id@));
        }
        let mut i: usize = 0;
        while i < self.modules.len()
            invariant
                i <= self.modules@.len(),
                forall|j: int| 0 <= j < i ==> self.modules@[j].identifier@ != id@,
                -1 <= first_match(self.modules@, module_named(id@))
                    < self.modules@.len(),
                first_match(self.modules@, module_named(id@)) >= 0
                    ==> self.modules@[first_match(
                    self.modules@,
                    module_named(id@),
                )].identifier@ == id@,
                forall|j: int|
                    0 <= j < self.modules@.len() && (first_match(
                        self.modules@,
                        module_named(id@),
                    ) < 0 || j < first_match(self.modules@, module_named(id@)))
                        ==> #[trigger] self.modules@[j].identifier@ != id@,
            decreases self.modules@.len() - i,
        {
            if self.modules[i].identifier == *id {
                return Some(&self.modules[i]);
            }
            i = i + 1;
        }
        None
    }

    /// The module-graph entry of the module whose identifier is `id`, if any.
    pub fn module_graph_module_by_identifier(&self, id: &ModuleIdentifier) -> (r: Option<
        &ModuleGraphModule,
    >)
        ensures
            match r {
                Some(m) => module_graph_module_of(*self, id@) == Some(*m),
                None => module_graph_module_of(*self, id@) is None,
            },
    {
        proof {
            lemma_first_match(
                self.module_graph_modules@,
                entry_named(id@),
            );
        }
        let mut i: usize = 0;
        while i < self.module_graph_modules.len()
            invariant
                i <= self.module_graph_modules@.len(),
                forall|j: int|
                    0 <= j < i ==> self.module_graph_modules@[j].module_identifier@ != id@,
                -1 <= first_match(
                    self.module_graph_modules@,
                    entry_named(id@),
                ) < self.module_graph_modules@.len(),
                first_match(
                    self.module_graph_modules@,
                    entry_named(id@),
                ) >= 0 ==> self.module_graph_modules@[first_match(
                    self.module_graph_modules@,
                    entry_named(id@),
                )].module_identifier@ == id@,
                forall|j: int|
                    0 <= j < self.module_graph_modules@.len() && (first_match(
                        self.module_graph_modules@,
                        entry_named(id@),
                    ) < 0 || j < first_match(
                        self.module_graph_modules@,
                        entry_named(id@),
                    )) ==> #[trigger] self.module_graph_modules@[j].module_identifier@ != id@,
            decreases self.module_graph_modules@.len() - i,
        {
            if self.module_graph_modules[i].module_identifier == *id {
                return Some(&self.module_graph_modules[i]);
            }
            i = i + 1;
        }
        None
    }
}

} // verus!
