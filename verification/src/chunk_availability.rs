//! Whether one chunk is always loaded before another, and whether two
//! chunks may be merged into one.

use crate::chunk::{
    chunk_has_runtime, chunk_wf, group_is_initial, Chunk, ChunkGroup, ChunkGroupByUkey,
};
use crate::chunk_graph::ChunkGraph;
use crate::collections::{contains_key, insert_key};
use vstd::prelude::*;

verus! {

broadcast use vstd::std_specs::hash::group_hash_axioms;

/// One step of the walk from `b`'s groups towards the entrypoints: from a
/// group that `a` is not in and that is not initial, to one of its parents.
pub open spec fn walk_step(db: Map<u64, ChunkGroup>, a: Chunk, g: u64, h: u64) -> bool {
    &&& !a.groups@.contains(g)
    &&& db.contains_key(g)
    &&& !group_is_initial(db[g])
    &&& db[g].parents@.contains(h)
}

/// A walk that starts in one of `b`'s groups and goes on by `walk_step`.
pub open spec fn is_walk(db: Map<u64, ChunkGroup>, a: Chunk, b: Chunk, p: Seq<u64>) -> bool {
    &&& p.len() > 0
    &&& b.groups@.contains(p[0])
    &&& forall|k: int| 0 <= k < p.len() - 1 ==> walk_step(db, a, #[trigger] p[k], p[k + 1])
}

/// Some walk ends at group `x`.
pub open spec fn walk_reaches(db: Map<u64, ChunkGroup>, a: Chunk, b: Chunk, x: u64) -> bool {
    exists|p: Seq<u64>| #[trigger] is_walk(db, a, b, p) && p.last() == x
}

/// Some walk reaches an initial group that `a` is not in: `b` can be loaded
/// without `a` having been loaded.
pub open spec fn reaches_initial_group(db: Map<u64, ChunkGroup>, a: Chunk, b: Chunk) -> bool {
    exists|p: Seq<u64>|
        #[trigger] is_walk(db, a, b, p) && !a.groups@.contains(p.last()) && db.contains_key(
            p.last(),
        ) && group_is_initial(db[p.last()])
}

/// Every group a walk reaches that `a` is not in is known.
pub open spec fn walks_stay_known(db: Map<u64, ChunkGroup>, a: Chunk, b: Chunk) -> bool {
    forall|p: Seq<u64>|
        #[trigger] is_walk(db, a, b, p) && !a.groups@.contains(p.last()) ==> db.contains_key(
            p.last(),
        )
}

/// The parents of the groups with the given keys, one list after another.
pub open spec fn parents_of_keys(db: Map<u64, ChunkGroup>, keys: Seq<u64>) -> Seq<u64>
    decreases keys.len(),
{
    if keys.len() == 0 {
        Seq::empty()
    } else {
        parents_of_keys(db, keys.drop_last()) + db[keys.last()].parents@
    }
}

/// Each parent of a listed group is among the listed parents.
proof fn lemma_parents_of_keys(db: Map<u64, ChunkGroup>, keys: Seq<u64>, k: u64, h: u64)
    requires
        keys.contains(k),
        db[k].parents@.contains(h),
    ensures
        parents_of_keys(db, keys).contains(h),
    decreases keys.len(),
{
    let prev = parents_of_keys(db, keys.drop_last());
    let mine = db[keys.last()].parents@;
    if keys.last() == k {
        let j = choose|j: int| 0 <= j < mine.len() && mine[j] == h;
        assert((prev + mine)[prev.len() + j] == h);
    } else {
        let i = choose|i: int| 0 <= i < keys.len() && keys[i] == k;
        assert(keys.drop_last()[i] == k);
        lemma_parents_of_keys(db, keys.drop_last(), k, h);
        let j = choose|j: int| 0 <= j < prev.len() && prev[j] == h;
        assert((prev + mine)[j] == h);
    }
}

/// The last group of a walk is in any list that holds `b`'s groups and,
/// with each group `a` is not in, is known, not initial, and holds its parents.
proof fn lemma_walk_in_list(db: Map<u64, ChunkGroup>, a: Chunk, b: Chunk, q: Seq<u64>, p: Seq<u64>)
    requires
        is_walk(db, a, b, p),
        forall|x: u64| b.groups@.contains(x) ==> q.contains(x),
        forall|x: u64|
            q.contains(x) && !a.groups@.contains(x) ==> db.contains_key(x) && !group_is_initial(
                db[x],
            ) && forall|h: u64| #[trigger] db[x].parents@.contains(h) ==> q.contains(h),
    ensures
        q.contains(p.last()),
    decreases p.len(),
{
    if p.len() > 1 {
        let p0 = p.drop_last();
        assert forall|k: int| 0 <= k < p0.len() - 1 implies walk_step(
            db,
            a,
            #[trigger] p0[k],
            p0[k + 1],
        ) by {
            assert(p0[k] == p[k] && p0[k + 1] == p[k + 1]);
            assert(walk_step(db, a, p[k], p[k + 1]));
        }
        lemma_walk_in_list(db, a, b, q, p0);
        assert(walk_step(db, a, p[p.len() - 2], p[p.len() - 1]));
        assert(p0.last() == p[p.len() - 2]);
    } else {
        assert(p.last() == p[0]);
    }
}

/// A list without repeats whose items all occur in `u` is no longer than `u`.
proof fn lemma_unique_within(q: Seq<u64>, u: Seq<u64>)
    requires
        q.no_duplicates(),
        forall|x: u64| q.contains(x) ==> u.contains(x),
    ensures
        q.len() <= u.len(),
{
    q.unique_seq_to_set();
    u.lemma_cardinality_of_set();
    assert(q.to_set().subset_of(u.to_set()));
    vstd::set_lib::lemma_len_subset(q.to_set(), u.to_set());
}

/// Whether two chunks may be merged: neither prevents it; if exactly one
/// holds a runtime, the other must always be loaded where it is; otherwise
/// neither may hold entry modules.
pub open spec fn chunks_integrable(
    g: ChunkGraph,
    db: Map<u64, ChunkGroup>,
    a: Chunk,
    b: Chunk,
) -> bool {
    if a.prevent_integration || b.prevent_integration {
        false
    } else if chunk_has_runtime(a, db) && !chunk_has_runtime(b, db) {
        !reaches_initial_group(db, a, b)
    } else if !chunk_has_runtime(a, db) && chunk_has_runtime(b, db) {
        !reaches_initial_group(db, b, a)
    } else {
        g.chunks()[a.ukey].entry_modules@.len() == 0 && g.chunks()[b.ukey].entry_modules@.len()
            == 0
    }
}

/// Whether two chunks may be merged does not depend on the order in which
/// they are asked about.
pub proof fn lemma_chunks_integrable_symmetric(
    g: ChunkGraph,
    db: Map<u64, ChunkGroup>,
    a: Chunk,
    b: Chunk,
)
    ensures
        chunks_integrable(g, db, a, b) == chunks_integrable(g, db, b, a),
{
}

/// When exactly one of two chunks holds a runtime, they may be merged only
/// if the runtime chunk is always loaded where the other is: no initial
/// group is reached from the other's groups through groups that do not hold
/// the runtime chunk. In particular, a chunk in an initial group that the
/// runtime chunk is not in cannot be merged with it. A chunk that prevents
/// merging is never merged, and two chunks alike in holding a runtime are
/// merged only when neither holds entry modules.
pub proof fn law_integration_needs_availability(
    g: ChunkGraph,
    db: Map<u64, ChunkGroup>,
    a: Chunk,
    b: Chunk,
    x: u64,
)
    ensures
        chunks_integrable(g, db, a, b) && chunk_has_runtime(a, db) && !chunk_has_runtime(b, db)
            ==> !reaches_initial_group(db, a, b),
        chunks_integrable(g, db, a, b) && !chunk_has_runtime(a, db) && chunk_has_runtime(b, db)
            ==> !reaches_initial_group(db, b, a),
        chunk_has_runtime(a, db) && !chunk_has_runtime(b, db) && b.groups@.contains(x) && !a.groups@.contains(x)
            && db.contains_key(x) && group_is_initial(db[x]) ==> !chunks_integrable(g, db, a, b),
        !chunk_has_runtime(a, db) && chunk_has_runtime(b, db) && a.groups@.contains(x) && !b.groups@.contains(x)
            && db.contains_key(x) && group_is_initial(db[x]) ==> !chunks_integrable(g, db, a, b),
        a.prevent_integration || b.prevent_integration ==> !chunks_integrable(g, db, a, b),
        chunk_has_runtime(a, db) == chunk_has_runtime(b, db) ==> (chunks_integrable(g, db, a, b) ==> (!a.prevent_integration
            && !b.prevent_integration && g.chunks()[a.ukey].entry_modules@.len() == 0
            && g.chunks()[b.ukey].entry_modules@.len() == 0)),
{
    let p = seq![x];
    if chunk_has_runtime(a, db) && !chunk_has_runtime(b, db) && b.groups@.contains(x) && !a.groups@.contains(x)
        && db.contains_key(x) && group_is_initial(db[x]) {
        assert(is_walk(db, a, b, p));
        assert(p.last() == x);
    }
    if !chunk_has_runtime(a, db) && chunk_has_runtime(b, db) && a.groups@.contains(x) && !b.groups@.contains(x)
        && db.contains_key(x) && group_is_initial(db[x]) {
        assert(is_walk(db, b, a, p));
        assert(p.last() == x);
    }
}

impl ChunkGraph {
    /// Whether chunk `a` is always loaded when chunk `b` is: no initial group
    /// is reached from `b`'s groups by following parents through groups that
    /// do not hold `a`. Each group is looked at once.
    pub fn is_available_chunk(
        &self,
        chunk_group_by_ukey: &ChunkGroupByUkey,
        chunk_a: &Chunk,
        chunk_b: &Chunk,
    ) -> (r: bool)
        requires
            chunk_b.groups@.no_duplicates(),
            walks_stay_known(chunk_group_by_ukey@, *chunk_a, *chunk_b),
        ensures
            r == !reaches_initial_group(chunk_group_by_ukey@, *chunk_a, *chunk_b),
    {
        let ghost db = chunk_group_by_ukey@;
        let ghost keys = db.dom().to_seq();
        let ghost u = chunk_b.groups@ + parents_of_keys(db, keys);
        proof {
            db.dom().lemma_to_seq_to_set_id();
        }
        let mut groups: Vec<u64> = chunk_b.groups.clone();
        let mut head: usize = 0;
        proof {
            assert forall|i: int| 0 <= i < groups@.len() implies walk_reaches(db, *chunk_a, *chunk_b, groups@[i]) by {
                let p = seq![groups@[i]];
                assert(is_walk(db, *chunk_a, *chunk_b, p) && p.last() == groups@[i]);
            }
            assert forall|x: u64| groups@.contains(x) implies u.contains(x) by {
                let i = choose|i: int| 0 <= i < groups@.len() && groups@[i] == x;
                assert(u[i] == x);
            }
        }
        while head < groups.len()
            invariant
                db == chunk_group_by_ukey@,
                keys.to_set() == db.dom(),
                u == chunk_b.groups@ + parents_of_keys(db, keys),
                walks_stay_known(db, *chunk_a, *chunk_b),
                head <= groups@.len(),
                groups@.no_duplicates(),
                forall|x: u64| groups@.contains(x) ==> u.contains(x),
                forall|x: u64| chunk_b.groups@.contains(x) ==> groups@.contains(x),
                forall|i: int|
                    0 <= i < groups@.len() ==> walk_reaches(db, *chunk_a, *chunk_b, groups@[i]),
                forall|i: int|
                    0 <= i < head && !chunk_a.groups@.contains(#[trigger] groups@[i])
                        ==> db.contains_key(groups@[i]) && !group_is_initial(db[groups@[i]])
                        && forall|h: u64| #[trigger]
                        db[groups@[i]].parents@.contains(h) ==> groups@.contains(h),
            decreases u.len() - head,
        {
            proof {
                lemma_unique_within(groups@, u);
            }
            let current = groups[head];
            head = head + 1;
            if chunk_a.is_in_group(current) {
                continue;
            }
            let chunk_group = match chunk_group_by_ukey.get(current) {
                Some(g) => g,
                None => {
                    proof {
                        assert(walk_reaches(db, *chunk_a, *chunk_b, groups@[head - 1]));
                        let p = choose|p: Seq<u64>|
                            #[trigger] is_walk(db, *chunk_a, *chunk_b, p) && p.last() == current;
                        assert(is_walk(db, *chunk_a, *chunk_b, p));
                    }
                    vstd::pervasive::unreached()
                },
            };
            if chunk_group.is_initial() {
                proof {
                    assert(walk_reaches(db, *chunk_a, *chunk_b, groups@[head - 1]));
                    let p = choose|p: Seq<u64>|
                        #[trigger] is_walk(db, *chunk_a, *chunk_b, p) && p.last() == current;
                    assert(is_walk(db, *chunk_a, *chunk_b, p));
                }
                return false;
            }
            let ghost gi = (head - 1) as int;
            proof {
                assert(groups@[gi] == current);
                assert(walk_reaches(db, *chunk_a, *chunk_b, groups@[gi]));
            }
            let ghost pw = choose|p: Seq<u64>|
                #[trigger] is_walk(db, *chunk_a, *chunk_b, p) && p.last() == current;
            let mut j: usize = 0;
            while j < chunk_group.parents.len()
                invariant
                    db == chunk_group_by_ukey@,
                    *chunk_group == db[current],
                    db.contains_key(current),
                    !chunk_a.groups@.contains(current),
                    !group_is_initial(db[current]),
                    keys.to_set() == db.dom(),
                    u == chunk_b.groups@ + parents_of_keys(db, keys),
                    is_walk(db, *chunk_a, *chunk_b, pw),
                    pw.last() == current,
                    0 <= gi < head <= groups@.len(),
                    groups@[gi] == current,
                    j <= chunk_group.parents@.len(),
                    forall|k: int| 0 <= k < j ==> groups@.contains(chunk_group.parents@[k]),
                    groups@.no_duplicates(),
                    forall|x: u64| groups@.contains(x) ==> u.contains(x),
                    forall|x: u64| chunk_b.groups@.contains(x) ==> groups@.contains(x),
                    forall|i: int|
                        0 <= i < groups@.len() ==> walk_reaches(db, *chunk_a, *chunk_b, groups@[i]),
                    forall|i: int|
                        0 <= i < gi && !chunk_a.groups@.contains(#[trigger] groups@[i])
                            ==> db.contains_key(groups@[i]) && !group_is_initial(db[groups@[i]])
                            && forall|h: u64| #[trigger]
                            db[groups@[i]].parents@.contains(h) ==> groups@.contains(h),
                decreases chunk_group.parents@.len() - j,
            {
                let parent = chunk_group.parents[j];
                if !contains_key(&groups, parent) {
                    let ghost before = groups@;
                    groups.push(parent);
                    proof {
                        assert(groups@ == before.push(parent));
                        assert forall|x: u64| groups@.contains(x) implies u.contains(x) by {
                            if x == parent {
                                assert(db[current].parents@[j as int] == parent);
                                lemma_parents_of_keys(db, keys, current, parent);
                                let t = choose|t: int|
                                    0 <= t < parents_of_keys(db, keys).len() && parents_of_keys(
                                        db,
                                        keys,
                                    )[t] == parent;
                                assert(u[chunk_b.groups@.len() + t] == parent);
                            } else {
                                let t = choose|t: int| 0 <= t < groups@.len() && groups@[t] == x;
                                assert(before[t] == x);
                            }
                        }
                        assert forall|x: u64| before.contains(x) implies groups@.contains(x) by {
                            let t = choose|t: int| 0 <= t < before.len() && before[t] == x;
                            assert(groups@[t] == x);
                        }
                        assert(groups@[before.len() as int] == parent);
                        assert(groups@.contains(parent));
                        assert forall|x: u64| chunk_b.groups@.contains(x) implies groups@.contains(x) by {
                            assert(before.contains(x));
                        }
                        let pn = pw.push(parent);
                        assert forall|k: int| 0 <= k < pn.len() - 1 implies walk_step(
                            db,
                            *chunk_a,
                            #[trigger] pn[k],
                            pn[k + 1],
                        ) by {
                            if k < pw.len() - 1 {
                                assert(pn[k] == pw[k] && pn[k + 1] == pw[k + 1]);
                                assert(walk_step(db, *chunk_a, pw[k], pw[k + 1]));
                            } else {
                                assert(pn[k] == current);
                                assert(db[current].parents@[j as int] == parent);
                            }
                        }
                        assert(is_walk(db, *chunk_a, *chunk_b, pn));
                        assert forall|i: int| 0 <= i < groups@.len() implies walk_reaches(db, *chunk_a, *chunk_b, groups@[i]) by {
                            if i == before.len() {
                                assert(is_walk(db, *chunk_a, *chunk_b, pn) && pn.last() == groups@[i]);
                            } else {
                                assert(groups@[i] == before[i]);
                            }
                        }
                        assert(groups@.no_duplicates());
                    }
                }
                proof {
                    assert(groups@.contains(chunk_group.parents@[j as int]));
                }
                j = j + 1;
            }
            proof {
                assert forall|h: u64| #[trigger] db[current].parents@.contains(h) implies groups@.contains(h) by {
                    let k = choose|k: int| 0 <= k < db[current].parents@.len() && db[current].parents@[k] == h;
                    assert(groups@.contains(chunk_group.parents@[k]));
                }
            }
        }
        proof {
            assert forall|p: Seq<u64>|
                #[trigger] is_walk(db, *chunk_a, *chunk_b, p) && !chunk_a.groups@.contains(p.last())
                    && db.contains_key(p.last()) implies !group_is_initial(db[p.last()]) by {
                assert forall|x: u64|
                    groups@.contains(x) && !chunk_a.groups@.contains(x) implies db.contains_key(x)
                    && !group_is_initial(db[x]) && forall|h: u64| #[trigger]
                    db[x].parents@.contains(h) ==> groups@.contains(h) by {
                    let t = choose|t: int| 0 <= t < groups@.len() && groups@[t] == x;
                    assert(!chunk_a.groups@.contains(groups@[t]));
                }
                lemma_walk_in_list(db, *chunk_a, *chunk_b, groups@, p);
                let t = choose|t: int| 0 <= t < groups@.len() && groups@[t] == p.last();
                assert(!chunk_a.groups@.contains(groups@[t]));
            }
        }
        true
    }

    /// Whether two chunks may be merged into one (see `chunks_integrable`).
    pub fn can_chunks_be_integrated(
        &self,
        chunk_group_by_ukey: &ChunkGroupByUkey,
        chunk_a: &Chunk,
        chunk_b: &Chunk,
    ) -> (r: bool)
        requires
            chunk_wf(*chunk_a),
            chunk_wf(*chunk_b),
            !chunk_a.prevent_integration && !chunk_b.prevent_integration && chunk_has_runtime(
                *chunk_a,
                chunk_group_by_ukey@,
            ) && !chunk_has_runtime(*chunk_b, chunk_group_by_ukey@) ==> walks_stay_known(
                chunk_group_by_ukey@,
                *chunk_a,
                *chunk_b,
            ),
            !chunk_a.prevent_integration && !chunk_b.prevent_integration && !chunk_has_runtime(
                *chunk_a,
                chunk_group_by_ukey@,
            ) && chunk_has_runtime(*chunk_b, chunk_group_by_ukey@) ==> walks_stay_known(
                chunk_group_by_ukey@,
                *chunk_b,
                *chunk_a,
            ),
            !chunk_a.prevent_integration && !chunk_b.prevent_integration && chunk_has_runtime(
                *chunk_a,
                chunk_group_by_ukey@,
            ) == chunk_has_runtime(*chunk_b, chunk_group_by_ukey@) ==> {
                &&& self.chunks().contains_key(chunk_a.ukey)
                &&& self.chunks().contains_key(chunk_b.ukey)
            },
        ensures
            r == chunks_integrable(*self, chunk_group_by_ukey@, *chunk_a, *chunk_b),
    {
        if chunk_a.prevent_integration || chunk_b.prevent_integration {
            return false;
        }
        let has_runtime_a = chunk_a.has_runtime(chunk_group_by_ukey);
        let has_runtime_b = chunk_b.has_runtime(chunk_group_by_ukey);
        if has_runtime_a != has_runtime_b {
            if has_runtime_a {
                return self.is_available_chunk(chunk_group_by_ukey, chunk_a, chunk_b);
            } else if has_runtime_b {
                return self.is_available_chunk(chunk_group_by_ukey, chunk_b, chunk_a);
            } else {
                return false;
            }
        }
        if self.get_number_of_entry_modules(&chunk_a.ukey) > 0
            || self.get_number_of_entry_modules(&chunk_b.ukey) > 0 {
            return false;
        }
        true
    }
}

} // verus!
