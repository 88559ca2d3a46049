//! Runtime requirements of chunks and the runtimes a chunk belongs to.

use crate::collections::{id_set, ids_unique, insert_identifier};
use vstd::prelude::*;

verus! {

/// A set of runtime globals, one bit per global.
#[derive(Clone, Copy, PartialEq, Eq, Structural, Debug)]
pub struct RuntimeGlobals {
    pub bits: u64,
}

/// The single runtime globals that source code can ask for by name.
#[derive(Clone, Copy, PartialEq, Eq, Structural, Debug)]
pub enum RuntimeGlobal {
    Require,
    GetFullHash,
    PublicPath,
    ModuleFactories,
    EnsureChunk,
    BaseUri,
    SystemContext,
    ShareScopeMap,
    InitializeSharing,
    ScriptNonce,
    ChunkName,
    RuntimeId,
    ModuleCache,
    ModuleId,
}

/// The name under which the generated runtime exposes a global.
pub open spec fn global_name(g: RuntimeGlobal) -> Seq<char> {
    match g {
        RuntimeGlobal::Require => "__webpack_require__"@,
        RuntimeGlobal::GetFullHash => "__webpack_require__.h"@,
        RuntimeGlobal::PublicPath => "__webpack_require__.p"@,
        RuntimeGlobal::ModuleFactories => "__webpack_require__.m"@,
        RuntimeGlobal::EnsureChunk => "__webpack_require__.e"@,
        RuntimeGlobal::BaseUri => "__webpack_require__.b"@,
        RuntimeGlobal::SystemContext => "__webpack_require__.y"@,
        RuntimeGlobal::ShareScopeMap => "__webpack_require__.S"@,
        RuntimeGlobal::InitializeSharing => "__webpack_require__.I"@,
        RuntimeGlobal::ScriptNonce => "__webpack_require__.nc"@,
        RuntimeGlobal::ChunkName => "__webpack_require__.cn"@,
        RuntimeGlobal::RuntimeId => "__webpack_require__.j"@,
        RuntimeGlobal::ModuleCache => "__webpack_require__.c"@,
        RuntimeGlobal::ModuleId => "module.id"@,
    }
}

/// The bit that stands for a global in a set of runtime globals.
pub open spec fn global_bit(g: RuntimeGlobal) -> u64 {
    match g {
        RuntimeGlobal::Require => 1,
        RuntimeGlobal::GetFullHash => 2,
        RuntimeGlobal::PublicPath => 4,
        RuntimeGlobal::ModuleFactories => 8,
        RuntimeGlobal::EnsureChunk => 16,
        RuntimeGlobal::BaseUri => 32,
        RuntimeGlobal::SystemContext => 64,
        RuntimeGlobal::ShareScopeMap => 128,
        RuntimeGlobal::InitializeSharing => 256,
        RuntimeGlobal::ScriptNonce => 512,
        RuntimeGlobal::ChunkName => 1024,
        RuntimeGlobal::RuntimeId => 2048,
        RuntimeGlobal::ModuleCache => 4096,
        RuntimeGlobal::ModuleId => 8192,
    }
}

impl RuntimeGlobal {
    /// The name under which the generated runtime exposes this global.
    pub fn name(&self) -> (r: &'static str)
        ensures
            r@ == global_name(*self),
    {
        match self {
            RuntimeGlobal::Require => "__webpack_require__",
            RuntimeGlobal::GetFullHash => "__webpack_require__.h",
            RuntimeGlobal::PublicPath => "__webpack_require__.p",
            RuntimeGlobal::ModuleFactories => "__webpack_require__.m",
            RuntimeGlobal::EnsureChunk => "__webpack_require__.e",
            RuntimeGlobal::BaseUri => "__webpack_require__.b",
            RuntimeGlobal::SystemContext => "__webpack_require__.y",
            RuntimeGlobal::ShareScopeMap => "__webpack_require__.S",
            RuntimeGlobal::InitializeSharing => "__webpack_require__.I",
            RuntimeGlobal::ScriptNonce => "__webpack_require__.nc",
            RuntimeGlobal::ChunkName => "__webpack_require__.cn",
            RuntimeGlobal::RuntimeId => "__webpack_require__.j",
            RuntimeGlobal::ModuleCache => "__webpack_require__.c",
            RuntimeGlobal::ModuleId => "module.id",
        }
    }
}

impl RuntimeGlobals {
    /// The empty set of runtime globals.
    pub fn empty() -> (r: RuntimeGlobals)
        ensures
            r.bits == 0,
    {
        RuntimeGlobals { bits: 0 }
    }

    /// The set holding just `g`.
    pub fn from_global(g: RuntimeGlobal) -> (r: RuntimeGlobals)
        ensures
            r.bits == global_bit(g),
    {
        let bits: u64 = match g {
            RuntimeGlobal::Require => 1,
            RuntimeGlobal::GetFullHash => 2,
            RuntimeGlobal::PublicPath => 4,
            RuntimeGlobal::ModuleFactories => 8,
            RuntimeGlobal::EnsureChunk => 16,
            RuntimeGlobal::BaseUri => 32,
            RuntimeGlobal::SystemContext => 64,
            RuntimeGlobal::ShareScopeMap => 128,
            RuntimeGlobal::InitializeSharing => 256,
            RuntimeGlobal::ScriptNonce => 512,
            RuntimeGlobal::ChunkName => 1024,
            RuntimeGlobal::RuntimeId => 2048,
            RuntimeGlobal::ModuleCache => 4096,
            RuntimeGlobal::ModuleId => 8192,
        };
        RuntimeGlobals { bits }
    }

    /// Adds every global of `other` to this set.
    pub fn add(&mut self, other: RuntimeGlobals)
        ensures
            final(self).bits == old(self).bits | other.bits,
    {
        self.bits = self.bits | other.bits;
    }

    /// Whether every global of `other` is in this set.
    pub fn contains(&self, other: RuntimeGlobals) -> (r: bool)
        ensures
            r == (self.bits & other.bits == other.bits),
    {
        self.bits & other.bits == other.bits
    }
}


/// After adding a set of globals, the set contains them, and everything it
/// contained before.
pub proof fn law_add_then_contains(a: u64, b: u64)
    ensures
        (a | b) & b == b,
        (a | b) & a == a,
{
    assert((a | b) & b == b) by (bit_vector);
    assert((a | b) & a == a) by (bit_vector);
}

/// The runtimes a chunk belongs to: a set of runtime names.
pub type RuntimeSpec = Vec<String>;

/// The union of two runtimes: those of `a`, then those of `b` not in `a`.
pub fn merge_runtime(a: RuntimeSpec, b: RuntimeSpec) -> (r: RuntimeSpec)
    requires
        ids_unique(a@),
    ensures
        ids_unique(r@),
        id_set(r@) == id_set(a@) + id_set(b@),
{
    let mut r = a;
    let mut i: usize = 0;
    while i < b.len()
        invariant
            i <= b@.len(),
            ids_unique(r@),
            id_set(r@) == id_set(a@) + id_set(b@.take(i as int)),
        decreases b@.len() - i,
    {
        let ghost before = r@;
        insert_identifier(&mut r, b[i].clone());
        proof {
            assert(b@.take(i + 1) =~= b@.take(i as int).push(b@[i as int]));
            assert(id_set(b@.take(i + 1)) =~= id_set(b@.take(i as int)).insert(b@[i as int]@)) by {
                assert(crate::collections::ids_view(b@.take(i + 1)) =~= crate::collections::ids_view(
                    b@.take(i as int),
                ).push(b@[i as int]@));
                crate::collections::ids_view(b@.take(i as int)).lemma_push_to_set_commute(
                    b@[i as int]@,
                );
            }
        }
        i = i + 1;
    }
    proof {
        assert(b@.take(b@.len() as int) =~= b@);
    }
    r
}

} // verus!
