//! Chunks and chunk groups, as far as chunk-graph bookkeeping reads them.

use crate::collections::{contains_key, ids_unique, insert_key, remove_key};
use crate::database::Database;
use crate::runtime::RuntimeSpec;
use vstd::prelude::*;

verus! {

/// Key of a chunk.
pub type ChunkUkey = u64;

/// Key of a chunk group.
pub type ChunkGroupUkey = u64;

/// Whether a chunk group is an entrypoint (and then whether it is initial).
#[derive(Clone, Copy, PartialEq, Eq, Structural, Debug)]
pub enum ChunkGroupKind {
    Entrypoint { initial: bool },
    Normal,
}

/// A group of chunks loaded together.
pub struct ChunkGroup {
    pub ukey: ChunkGroupUkey,
    pub kind: ChunkGroupKind,
    /// The chunks of the group, in order.
    pub chunks: Vec<ChunkUkey>,
    /// The groups this group is loaded from.
    pub parents: Vec<ChunkGroupUkey>,
    /// For an entrypoint, the chunk that holds the runtime.
    pub runtime_chunk: Option<ChunkUkey>,
    /// For an entrypoint, the chunk that holds the entry modules.
    pub entry_point_chunk: Option<ChunkUkey>,
}

/// A chunk: a unit of output that modules are grouped into.
pub struct Chunk {
    pub ukey: ChunkUkey,
    pub name: Option<String>,
    /// Hints for naming the chunk's id, each once.
    pub id_name_hints: Vec<String>,
    /// The runtimes the chunk belongs to, each once.
    pub runtime: RuntimeSpec,
    /// The groups the chunk belongs to, each once.
    pub groups: Vec<ChunkGroupUkey>,
    pub prevent_integration: bool,
}

/// Two chunks hold the same values.
pub open spec fn same_chunk(a: Chunk, b: Chunk) -> bool {
    &&& a.ukey == b.ukey
    &&& a.name == b.name
    &&& a.id_name_hints@ == b.id_name_hints@
    &&& a.runtime@ == b.runtime@
    &&& a.groups@ == b.groups@
    &&& a.prevent_integration == b.prevent_integration
}

impl Clone for Chunk {
    /// A copy of the chunk, holding the same values.
    fn clone(&self) -> (r: Self)
        ensures
            same_chunk(r, *self),
    {
        let name = match &self.name {
            Some(n) => Some(n.clone()),
            None => None,
        };
        let id_name_hints = self.id_name_hints.clone();
        let runtime = self.runtime.clone();
        let groups = self.groups.clone();
        proof {
            assert(id_name_hints@ =~= self.id_name_hints@);
            assert(runtime@ =~= self.runtime@);
            assert(groups@ =~= self.groups@);
        }
        Chunk {
            ukey: self.ukey,
            name,
            id_name_hints,
            runtime,
            groups,
            prevent_integration: self.prevent_integration,
        }
    }
}

/// The chunks of a compilation by key.
pub type ChunkByUkey = Database<Chunk>;

/// The chunk groups of a compilation by key.
pub type ChunkGroupByUkey = Database<ChunkGroup>;

/// An initial entrypoint: one whose chunks are loaded on start.
pub open spec fn group_is_initial(g: ChunkGroup) -> bool {
    g.kind == (ChunkGroupKind::Entrypoint { initial: true })
}

/// The first position of `x` in `s`, or -1 when it does not occur.
pub open spec fn first_index(s: Seq<u64>, x: u64) -> int
    decreases s.len(),
{
    if s.len() == 0 {
        -1
    } else if s[0] == x {
        0
    } else {
        let r = first_index(s.drop_first(), x);
        if r < 0 {
            -1
        } else {
            r + 1
        }
    }
}

/// Position facts about `first_index`.
pub proof fn lemma_first_index(s: Seq<u64>, x: u64)
    ensures
        -1 <= first_index(s, x) < s.len(),
        first_index(s, x) >= 0 ==> s[first_index(s, x)] == x,
        first_index(s, x) >= 0 ==> forall|j: int| 0 <= j < first_index(s, x) ==> s[j] != x,
        first_index(s, x) < 0 ==> !s.contains(x),
    decreases s.len(),
{
    if s.len() > 0 {
        lemma_first_index(s.drop_first(), x);
        if s[0] != x && first_index(s.drop_first(), x) < 0 {
            assert forall|j: int| 0 <= j < s.len() implies s[j] != x by {
                if j > 0 {
                    assert(s[j] == s.drop_first()[j - 1]);
                }
            }
        }
        if s[0] != x && first_index(s.drop_first(), x) >= 0 {
            assert forall|j: int| 0 <= j < first_index(s, x) implies s[j] != x by {
                if j > 0 {
                    assert(s[j] == s.drop_first()[j - 1]);
                }
            }
        }
    }
}

/// The chunks of a group after `old_chunk` is replaced by `new_chunk`: the
/// new chunk takes the old one's place, unless it already stands before it
/// (then the old one just leaves); a later occurrence of the new chunk leaves.
pub open spec fn replaced_chunks(s: Seq<u64>, old_chunk: u64, new_chunk: u64) -> Seq<u64> {
    let i = first_index(s, old_chunk);
    let j = first_index(s, new_chunk);
    if i < 0 {
        s
    } else if j < 0 {
        s.update(i, new_chunk)
    } else if j < i {
        s.remove(i)
    } else if j != i {
        s.update(i, new_chunk).remove(j)
    } else {
        s
    }
}

/// The chunks of a group after the first occurrence of `chunk` leaves.
pub open spec fn removed_chunk(s: Seq<u64>, chunk: u64) -> Seq<u64> {
    let i = first_index(s, chunk);
    if i < 0 {
        s
    } else {
        s.remove(i)
    }
}

/// Position of the first occurrence of `x` in `v`, if any.
fn position(v: &Vec<u64>, x: u64) -> (r: Option<usize>)
    ensures
        match r {
            Some(i) => i as int == first_index(v@, x),
            None => first_index(v@, x) < 0,
        },
{
    proof {
        lemma_first_index(v@, x);
    }
    let mut i: usize = 0;
    while i < v.len()
        invariant
            i <= v@.len(),
            forall|j: int| 0 <= j < i ==> v@[j] != x,
            -1 <= first_index(v@, x) < v@.len(),
            first_index(v@, x) >= 0 ==> v@[first_index(v@, x)] == x,
            first_index(v@, x) >= 0 ==> forall|j: int| 0 <= j < first_index(v@, x) ==> v@[j] != x,
            first_index(v@, x) < 0 ==> !v@.contains(x),
        decreases v@.len() - i,
    {
        if v[i] == x {
            return Some(i);
        }
        i = i + 1;
    }
    proof {
        if first_index(v@, x) >= 0 {
            assert(v@[first_index(v@, x)] == x);
        }
    }
    None
}

impl ChunkGroup {
    /// Whether the group is an initial entrypoint.
    pub fn is_initial(&self) -> (r: bool)
        ensures
            r == group_is_initial(*self),
    {
        match self.kind {
            ChunkGroupKind::Entrypoint { initial } => initial,
            ChunkGroupKind::Normal => false,
        }
    }

    /// Whether the group is an entrypoint.
    pub fn is_entrypoint(&self) -> (r: bool)
        ensures
            r == (self.kind is Entrypoint),
    {
        match self.kind {
            ChunkGroupKind::Entrypoint { .. } => true,
            ChunkGroupKind::Normal => false,
        }
    }

    /// The chunk that holds the group's entry modules.
    pub fn get_entry_point_chunk(&self) -> (r: ChunkUkey)
        requires
            self.entry_point_chunk is Some,
        ensures
            Some(r) == self.entry_point_chunk,
    {
        match self.entry_point_chunk {
            Some(c) => c,
            None => 0,
        }
    }

    /// Puts `new_chunk` in the place of `old_chunk`; tells whether the
    /// chunks changed.
    pub fn replace_chunk(&mut self, old_chunk: ChunkUkey, new_chunk: ChunkUkey) -> (r: bool)
        ensures
            final(self).chunks@ == replaced_chunks(old(self).chunks@, old_chunk, new_chunk),
            final(self).ukey == old(self).ukey,
            final(self).kind == old(self).kind,
            final(self).parents == old(self).parents,
            final(self).runtime_chunk == old(self).runtime_chunk,
            final(self).entry_point_chunk == old(self).entry_point_chunk,
            r == (first_index(old(self).chunks@, old_chunk) >= 0 && first_index(
                old(self).chunks@,
                new_chunk,
            ) != first_index(old(self).chunks@, old_chunk)),
    {
        proof {
            lemma_first_index(self.chunks@, old_chunk);
            lemma_first_index(self.chunks@, new_chunk);
        }
        match position(&self.chunks, old_chunk) {
            Some(chunk_index) => {
                match position(&self.chunks, new_chunk) {
                    Some(new_chunk_index) => {
                        if new_chunk_index < chunk_index {
                            self.chunks.remove(chunk_index);
                            true
                        } else if new_chunk_index != chunk_index {
                            self.chunks.set(chunk_index, new_chunk);
                            self.chunks.remove(new_chunk_index);
                            true
                        } else {
                            false
                        }
                    },
                    None => {
                        self.chunks.set(chunk_index, new_chunk);
                        true
                    },
                }
            },
            None => false,
        }
    }

    /// Removes the first occurrence of `chunk`; tells whether it was there.
    pub fn remove_chunk(&mut self, chunk: ChunkUkey) -> (r: bool)
        ensures
            final(self).chunks@ == removed_chunk(old(self).chunks@, chunk),
            final(self).ukey == old(self).ukey,
            final(self).kind == old(self).kind,
            final(self).parents == old(self).parents,
            final(self).runtime_chunk == old(self).runtime_chunk,
            final(self).entry_point_chunk == old(self).entry_point_chunk,
            r == old(self).chunks@.contains(chunk),
    {
        proof {
            lemma_first_index(self.chunks@, chunk);
        }
        match position(&self.chunks, chunk) {
            Some(i) => {
                self.chunks.remove(i);
                true
            },
            None => false,
        }
    }
}

/// The chunk belongs to an initial group.
pub open spec fn chunk_can_be_initial(c: Chunk, db: Map<u64, ChunkGroup>) -> bool {
    exists|i: int|
        0 <= i < c.groups@.len() && db.contains_key(#[trigger] c.groups@[i]) && group_is_initial(
            db[c.groups@[i]],
        )
}

/// The chunk is the runtime chunk of one of its entrypoints.
pub open spec fn chunk_has_runtime(c: Chunk, db: Map<u64, ChunkGroup>) -> bool {
    exists|i: int|
        0 <= i < c.groups@.len() && db.contains_key(#[trigger] c.groups@[i])
            && db[c.groups@[i]].kind is Entrypoint && db[c.groups@[i]].runtime_chunk == Some(c.ukey)
}

/// The chunk's sets hold nothing twice.
pub open spec fn chunk_wf(c: Chunk) -> bool {
    &&& ids_unique(c.id_name_hints@)
    &&& ids_unique(c.runtime@)
    &&& c.groups@.no_duplicates()
}

impl Chunk {
    /// Whether the chunk belongs to `group`.
    pub fn is_in_group(&self, group: ChunkGroupUkey) -> (r: bool)
        ensures
            r == self.groups@.contains(group),
    {
        contains_key(&self.groups, group)
    }

    /// Makes the chunk belong to `group`.
    pub fn add_group(&mut self, group: ChunkGroupUkey)
        requires
            old(self).groups@.no_duplicates(),
        ensures
            final(self).groups@.no_duplicates(),
            old(self).groups@.contains(group) ==> final(self).groups@ == old(self).groups@,
            !old(self).groups@.contains(group) ==> final(self).groups@ == old(self).groups@.push(
                group,
            ),
            final(self).ukey == old(self).ukey,
            final(self).name == old(self).name,
            final(self).id_name_hints == old(self).id_name_hints,
            final(self).runtime == old(self).runtime,
            final(self).prevent_integration == old(self).prevent_integration,
    {
        insert_key(&mut self.groups, group);
    }

    /// Makes the chunk leave `group`.
    pub fn remove_group(&mut self, group: ChunkGroupUkey)
        requires
            old(self).groups@.no_duplicates(),
        ensures
            final(self).groups@.no_duplicates(),
            final(self).groups@ == old(self).groups@.filter(crate::collections::all_but(group)),
            final(self).groups@.to_set() == old(self).groups@.to_set().remove(group),
            final(self).ukey == old(self).ukey,
            final(self).name == old(self).name,
            final(self).id_name_hints == old(self).id_name_hints,
            final(self).runtime == old(self).runtime,
            final(self).prevent_integration == old(self).prevent_integration,
    {
        remove_key(&mut self.groups, group);
    }

    /// Whether the chunk belongs to an initial group.
    pub fn can_be_initial(&self, chunk_group_by_ukey: &ChunkGroupByUkey) -> (r: bool)
        ensures
            r == chunk_can_be_initial(*self, chunk_group_by_ukey@),
    {
        let mut i: usize = 0;
        while i < self.groups.len()
            invariant
                i <= self.groups@.len(),
                forall|j: int|
                    0 <= j < i ==> !(chunk_group_by_ukey@.contains_key(#[trigger] self.groups@[j])
                        && group_is_initial(chunk_group_by_ukey@[self.groups@[j]])),
            decreases self.groups@.len() - i,
        {
            match chunk_group_by_ukey.get(self.groups[i]) {
                Some(group) => {
                    if group.is_initial() {
                        return true;
                    }
                },
                None => {},
            }
            i = i + 1;
        }
        false
    }

    /// Whether the chunk is the runtime chunk of one of its entrypoints.
    pub fn has_runtime(&self, chunk_group_by_ukey: &ChunkGroupByUkey) -> (r: bool)
        ensures
            r == chunk_has_runtime(*self, chunk_group_by_ukey@),
    {
        let mut i: usize = 0;
        while i < self.groups.len()
            invariant
                i <= self.groups@.len(),
                forall|j: int|
                    0 <= j < i ==> !(chunk_group_by_ukey@.contains_key(#[trigger] self.groups@[j])
                        && chunk_group_by_ukey@[self.groups@[j]].kind is Entrypoint
                        && chunk_group_by_ukey@[self.groups@[j]].runtime_chunk == Some(self.ukey)),
            decreases self.groups@.len() - i,
        {
            match chunk_group_by_ukey.get(self.groups[i]) {
                Some(group) => {
                    if group.is_entrypoint() {
                        match group.runtime_chunk {
                            Some(c) => {
                                if c == self.ukey {
                                    return true;
                                }
                            },
                            None => {},
                        }
                    }
                },
                None => {},
            }
            i = i + 1;
        }
        false
    }
}

} // verus!
