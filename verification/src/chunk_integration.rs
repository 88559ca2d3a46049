//! Merging one chunk into another: its name, naming hints, runtimes,
//! modules, entry modules and groups go over to the other chunk.

use crate::chunk::{
    chunk_has_runtime, chunk_wf, replaced_chunks, Chunk, ChunkGroup, ChunkGroupByUkey,
    ChunkGroupUkey, ChunkUkey,
};
use crate::chunk_availability::{reaches_initial_group, walks_stay_known};
use crate::chunk_graph::{cgc_wf, ChunkGraph, ChunkGraphChunk, ChunkGraphModule};
use crate::chunk_modules::{derefs, lookup_module};
use crate::collections::{
    entries_view, entry_keys, extend_identifiers, id_set, ids_unique, ids_view,
    insert_identifier, key_not,
};
use crate::comparators::{compare_strs, lemma_lex_order_flip, lex_order, Identifier};
use crate::module_graph::{lemma_first_match, module_named, Module, ModuleGraph};
use crate::runtime::merge_runtime;
use std::cmp::Ordering;
use vstd::prelude::*;

verus! {

broadcast use vstd::std_specs::hash::group_hash_axioms;

/// The characters of an optional name.
pub open spec fn name_view(o: Option<String>) -> Option<Seq<char>> {
    match o {
        Some(s) => Some(s@),
        None => None,
    }
}

/// The length of a name in UTF-8 bytes.
pub open spec fn utf8_len(s: Seq<char>) -> int {
    vstd::utf8::encode_utf8(s).len() as int
}

/// The names' lengths in bytes fit in `usize`, as those of any string do.
pub open spec fn names_fit(a: Option<String>, b: Option<String>) -> bool {
    &&& (a matches Some(x) ==> utf8_len(x@) <= usize::MAX)
    &&& (b matches Some(y) ==> utf8_len(y@) <= usize::MAX)
}

/// The names of two chunks after the second is merged into the first. When
/// both have a non-empty name and both or neither hold entry modules, the
/// first keeps the shorter name in UTF-8 bytes (with equal lengths, the
/// smaller one); if that is the second's, it moves over and the second is
/// left without a name. A first chunk without a name takes the second's
/// non-empty name. Otherwise nothing changes.
pub open spec fn integrated_names(
    an: Option<Seq<char>>,
    bn: Option<Seq<char>>,
    a_has_entries: bool,
    b_has_entries: bool,
) -> (Option<Seq<char>>, Option<Seq<char>>) {
    match (an, bn) {
        (Some(x), Some(y)) => if x.len() > 0 && y.len() > 0 && a_has_entries == b_has_entries {
            if utf8_len(x) != utf8_len(y) {
                if utf8_len(x) < utf8_len(y) {
                    (an, bn)
                } else {
                    (bn, None)
                }
            } else if lex_order(x, y) == Ordering::Less {
                (an, bn)
            } else {
                (bn, None)
            }
        } else {
            (an, bn)
        },
        (None, Some(y)) => if y.len() > 0 {
            (bn, None)
        } else {
            (an, bn)
        },
        _ => (an, bn),
    }
}

/// Of two non-empty names of chunks alike in holding entry modules, the
/// merged chunk keeps the shortest in UTF-8 bytes and, of two as long, the
/// one that comes first in string order; the second chunk keeps its name
/// only if the first kept its own. With one chunk holding entry modules and
/// the other not, both names stay. A first chunk without a name takes the
/// second's non-empty name.
pub proof fn law_integrated_name_is_smallest(x: Seq<char>, y: Seq<char>, a_has_entries: bool, b_has_entries: bool)
    ensures
        ({
            let (na, nb) = integrated_names(Some(x), Some(y), a_has_entries, b_has_entries);
            x.len() > 0 && y.len() > 0 && a_has_entries == b_has_entries ==> {
                &&& (na == Some(x) && nb == Some(y)) || (na == Some(y) && nb is None)
                &&& na matches Some(n) && utf8_len(n) <= utf8_len(x) && utf8_len(n) <= utf8_len(y)
                &&& utf8_len(x) == utf8_len(y) ==> (na matches Some(n) && lex_order(n, x) != Ordering::Greater
                    && lex_order(n, y) != Ordering::Greater)
            }
        }),
        a_has_entries != b_has_entries ==> integrated_names(Some(x), Some(y), a_has_entries, b_has_entries)
            == (Some(x), Some(y)),
        y.len() > 0 ==> integrated_names(None, Some(y), a_has_entries, b_has_entries) == (Some(y), None::<Seq<char>>),
{
    lemma_lex_order_flip(x, y);
    lemma_lex_order_flip(x, x);
    lemma_lex_order_flip(y, y);
}

/// Gives the first chunk its name after the second is merged into it.
fn integrate_names(
    chunk_a: &mut Chunk,
    chunk_b: &mut Chunk,
    a_has_entries: bool,
    b_has_entries: bool,
)
    requires
        names_fit(old(chunk_a).name, old(chunk_b).name),
    ensures
        (name_view(final(chunk_a).name), name_view(final(chunk_b).name)) == integrated_names(
            name_view(old(chunk_a).name),
            name_view(old(chunk_b).name),
            a_has_entries,
            b_has_entries,
        ),
        final(chunk_a).ukey == old(chunk_a).ukey,
        final(chunk_a).id_name_hints == old(chunk_a).id_name_hints,
        final(chunk_a).runtime == old(chunk_a).runtime,
        final(chunk_a).groups == old(chunk_a).groups,
        final(chunk_a).prevent_integration == old(chunk_a).prevent_integration,
        final(chunk_b).ukey == old(chunk_b).ukey,
        final(chunk_b).id_name_hints == old(chunk_b).id_name_hints,
        final(chunk_b).runtime == old(chunk_b).runtime,
        final(chunk_b).groups == old(chunk_b).groups,
        final(chunk_b).prevent_integration == old(chunk_b).prevent_integration,
{
    let an = chunk_a.name.take();
    let bn = chunk_b.name.take();
    match (an, bn) {
        (Some(x), Some(y)) => {
            if !x.as_str().is_empty() && !y.as_str().is_empty() && a_has_entries == b_has_entries {
                let lx = x.as_str().len();
                let ly = y.as_str().len();
                if lx != ly {
                    if lx < ly {
                        chunk_a.name = Some(x);
                        chunk_b.name = Some(y);
                    } else {
                        chunk_a.name = Some(y);
                    }
                } else {
                    match compare_strs(x.as_str(), y.as_str()) {
                        Ordering::Less => {
                            chunk_a.name = Some(x);
                            chunk_b.name = Some(y);
                        },
                        _ => {
                            chunk_a.name = Some(y);
                        },
                    }
                }
            } else {
                chunk_a.name = Some(x);
                chunk_b.name = Some(y);
            }
        },
        (None, Some(y)) => {
            if !y.as_str().is_empty() {
                chunk_a.name = Some(y);
            } else {
                chunk_b.name = Some(y);
            }
        },
        (an, bn) => {
            chunk_a.name = an;
            chunk_b.name = bn;
        },
    }
}

/// The identifiers of those of `ids` that the module graph has.
pub open spec fn ids_in_graph(ids: Seq<Identifier>, g: ModuleGraph) -> Set<Seq<char>> {
    ids.filter_map(lookup_module(g)).map_values(|m: Module| m.identifier@).to_set()
}

/// Module records after the modules in `moved` went over from chunk `from`
/// to chunk `to`; the others are unchanged.
pub open spec fn cgms_modules_moved(
    before: Seq<ChunkGraphModule>,
    after: Seq<ChunkGraphModule>,
    ids: Seq<Seq<char>>,
    moved: Set<Seq<char>>,
    from: ChunkUkey,
    to: ChunkUkey,
) -> bool {
    &&& after.len() == before.len()
    &&& forall|i: int|
        0 <= i < before.len() ==> {
            &&& (#[trigger] after[i]).entry_in_chunks == before[i].entry_in_chunks
            &&& after[i].runtime_in_chunks == before[i].runtime_in_chunks
            &&& after[i].chunks@.to_set() == if moved.contains(ids[i]) {
                before[i].chunks@.to_set().remove(from).insert(to)
            } else {
                before[i].chunks@.to_set()
            }
        }
}

/// Module records after the entry modules in `moved` went over from chunk
/// `from` to chunk `to`; the others are unchanged.
pub open spec fn cgms_entries_moved(
    before: Seq<ChunkGraphModule>,
    after: Seq<ChunkGraphModule>,
    ids: Seq<Seq<char>>,
    moved: Set<Seq<char>>,
    from: ChunkUkey,
    to: ChunkUkey,
) -> bool {
    &&& after.len() == before.len()
    &&& forall|i: int|
        0 <= i < before.len() ==> {
            &&& (#[trigger] after[i]).chunks == before[i].chunks
            &&& after[i].runtime_in_chunks == before[i].runtime_in_chunks
            &&& after[i].entry_in_chunks@.to_set() == if moved.contains(ids[i]) {
                before[i].entry_in_chunks@.to_set().remove(from).insert(to)
            } else {
                before[i].entry_in_chunks@.to_set()
            }
        }
}

/// Chunk records that are the same for every chunk but `a` and `b`.
pub open spec fn same_but_two(
    before: Map<ChunkUkey, ChunkGraphChunk>,
    after: Map<ChunkUkey, ChunkGraphChunk>,
    a: ChunkUkey,
    b: ChunkUkey,
) -> bool {
    &&& after.dom() == before.dom()
    &&& forall|k: ChunkUkey|
        #[trigger] before.contains_key(k) && k != a && k != b ==> after[k] == before[k]
}

/// Entries after `es` were put, one after another, at the end of `base`
/// (each replacing an entry with its key).
pub open spec fn entries_inserted(
    base: Seq<(Seq<char>, ChunkGroupUkey)>,
    es: Seq<(Seq<char>, ChunkGroupUkey)>,
) -> Seq<(Seq<char>, ChunkGroupUkey)>
    decreases es.len(),
{
    if es.len() == 0 {
        base
    } else {
        entries_inserted(base, es.drop_last()).filter(key_not(es.last().0)).push(es.last())
    }
}

/// Chunk groups after chunk `from` was replaced by chunk `to` in each of the
/// groups in `gs`; the others are unchanged.
pub open spec fn groups_replaced(
    before: Map<u64, ChunkGroup>,
    after: Map<u64, ChunkGroup>,
    gs: Set<u64>,
    from: ChunkUkey,
    to: ChunkUkey,
) -> bool {
    &&& after.dom() == before.dom()
    &&& forall|g: u64| #[trigger]
        before.contains_key(g) ==> if gs.contains(g) {
            &&& after[g].chunks@ == replaced_chunks(before[g].chunks@, from, to)
            &&& after[g].ukey == before[g].ukey
            &&& after[g].kind == before[g].kind
            &&& after[g].parents == before[g].parents
            &&& after[g].runtime_chunk == before[g].runtime_chunk
            &&& after[g].entry_point_chunk == before[g].entry_point_chunk
        } else {
            after[g] == before[g]
        }
}

/// Every stored group is stored under its own key.
pub open spec fn groups_keyed(db: Map<u64, ChunkGroup>) -> bool {
    forall|g: u64| #[trigger] db.contains_key(g) ==> db[g].ukey == g
}

/// Makes chunk `a` take chunk `b`'s place in each of `b`'s groups.
fn move_groups(chunk_group_by_ukey: &mut ChunkGroupByUkey, chunk_a: &mut Chunk, chunk_b: &mut Chunk)
    requires
        chunk_wf(*old(chunk_a)),
        chunk_wf(*old(chunk_b)),
        groups_keyed(old(chunk_group_by_ukey)@),
        forall|g: u64| old(chunk_b).groups@.contains(g) ==> old(chunk_group_by_ukey)@.contains_key(g),
    ensures
        groups_keyed(final(chunk_group_by_ukey)@),
        groups_replaced(
            old(chunk_group_by_ukey)@,
            final(chunk_group_by_ukey)@,
            old(chunk_b).groups@.to_set(),
            old(chunk_b).ukey,
            old(chunk_a).ukey,
        ),
        chunk_wf(*final(chunk_a)),
        chunk_wf(*final(chunk_b)),
        final(chunk_a).groups@.to_set() == old(chunk_a).groups@.to_set() + old(chunk_b).groups@.to_set(),
        final(chunk_b).groups@.len() == 0,
        final(chunk_a).ukey == old(chunk_a).ukey,
        final(chunk_a).name == old(chunk_a).name,
        final(chunk_a).id_name_hints == old(chunk_a).id_name_hints,
        final(chunk_a).runtime == old(chunk_a).runtime,
        final(chunk_a).prevent_integration == old(chunk_a).prevent_integration,
        final(chunk_b).ukey == old(chunk_b).ukey,
        final(chunk_b).name == old(chunk_b).name,
        final(chunk_b).id_name_hints == old(chunk_b).id_name_hints,
        final(chunk_b).runtime == old(chunk_b).runtime,
        final(chunk_b).prevent_integration == old(chunk_b).prevent_integration,
{
    let ghost db0 = chunk_group_by_ukey@;
    let ghost a0 = *chunk_a;
    let ghost b0 = *chunk_b;
    let mut groups: Vec<u64> = Vec::new();
    let mut t: usize = 0;
    while t < chunk_b.groups.len()
        invariant
            t <= chunk_b.groups@.len(),
            groups@ == chunk_b.groups@.take(t as int),
        decreases chunk_b.groups@.len() - t,
    {
        groups.push(chunk_b.groups[t]);
        proof {
            assert(chunk_b.groups@.take(t + 1) =~= chunk_b.groups@.take(t as int).push(chunk_b.groups@[t as int]));
        }
        t = t + 1;
    }
    proof {
        assert(chunk_b.groups@.take(chunk_b.groups@.len() as int) =~= chunk_b.groups@);
        assert(groups@.take(0).to_set() =~= Set::<u64>::empty());
        assert(chunk_a.groups@.to_set() + Set::<u64>::empty() =~= chunk_a.groups@.to_set());
        assert(chunk_b.groups@.to_set() - Set::<u64>::empty() =~= chunk_b.groups@.to_set());
    }
    let mut i: usize = 0;
    while i < groups.len()
        invariant
            db0 == old(chunk_group_by_ukey)@,
            a0 == *old(chunk_a),
            b0 == *old(chunk_b),
            groups@ == b0.groups@,
            b0.groups@.no_duplicates(),
            groups_keyed(db0),
            forall|g: u64| b0.groups@.contains(g) ==> db0.contains_key(g),
            i <= groups@.len(),
            groups_keyed(chunk_group_by_ukey@),
            groups_replaced(db0, chunk_group_by_ukey@, groups@.take(i as int).to_set(), b0.ukey, a0.ukey),
            chunk_wf(*chunk_a),
            chunk_wf(*chunk_b),
            chunk_a.groups@.to_set() == a0.groups@.to_set() + groups@.take(i as int).to_set(),
            chunk_b.groups@.to_set() == b0.groups@.to_set() - groups@.take(i as int).to_set(),
            chunk_a.ukey == a0.ukey,
            chunk_a.name == a0.name,
            chunk_a.id_name_hints == a0.id_name_hints,
            chunk_a.runtime == a0.runtime,
            chunk_a.prevent_integration == a0.prevent_integration,
            chunk_b.ukey == b0.ukey,
            chunk_b.name == b0.name,
            chunk_b.id_name_hints == b0.id_name_hints,
            chunk_b.runtime == b0.runtime,
            chunk_b.prevent_integration == b0.prevent_integration,
        decreases groups@.len() - i,
    {
        let g = groups[i];
        let ghost db1 = chunk_group_by_ukey@;
        proof {
            assert(b0.groups@.contains(g));
            assert(!groups@.take(i as int).to_set().contains(g)) by {
                if groups@.take(i as int).contains(g) {
                    let q = choose|q: int| 0 <= q < i && groups@.take(i as int)[q] == g;
                    assert(groups@[q] == groups@[i as int]);
                }
            }
            assert(db1.contains_key(g));
            assert(db1[g] == db0[g]);
            assert(groups@.take(i + 1) =~= groups@.take(i as int).push(g));
            groups@.take(i as int).lemma_push_to_set_commute(g);
        }
        let mut group = match chunk_group_by_ukey.remove(g) {
            Some(x) => x,
            None => vstd::pervasive::unreached(),
        };
        group.replace_chunk(chunk_b.ukey, chunk_a.ukey);
        let group_ukey = group.ukey;
        chunk_group_by_ukey.insert(g, group);
        let ghost ag = chunk_a.groups@;
        chunk_a.add_group(group_ukey);
        proof {
            if !ag.contains(group_ukey) {
                ag.lemma_push_to_set_commute(group_ukey);
            } else {
                assert(ag.to_set().contains(group_ukey));
            }
            assert(chunk_a.groups@.to_set() =~= ag.to_set().insert(group_ukey));
        }
        chunk_b.remove_group(group_ukey);
        proof {
            let p1 = groups@.take(i + 1).to_set();
            assert(group_ukey == g);
            assert(chunk_group_by_ukey@.dom() =~= db0.dom());
            assert forall|h: u64| #[trigger] db0.contains_key(h) implies if p1.contains(h) {
                &&& chunk_group_by_ukey@[h].chunks@ == replaced_chunks(db0[h].chunks@, b0.ukey, a0.ukey)
                &&& chunk_group_by_ukey@[h].ukey == db0[h].ukey
                &&& chunk_group_by_ukey@[h].kind == db0[h].kind
                &&& chunk_group_by_ukey@[h].parents == db0[h].parents
                &&& chunk_group_by_ukey@[h].runtime_chunk == db0[h].runtime_chunk
                &&& chunk_group_by_ukey@[h].entry_point_chunk == db0[h].entry_point_chunk
            } else {
                chunk_group_by_ukey@[h] == db0[h]
            } by {
                if h != g {
                    assert(chunk_group_by_ukey@[h] == db1[h]);
                }
            }
            assert(chunk_a.groups@.to_set() =~= a0.groups@.to_set() + p1);
            assert(chunk_b.groups@.to_set() =~= b0.groups@.to_set() - p1);
        }
        i = i + 1;
    }
    proof {
        assert(groups@.take(groups@.len() as int) =~= groups@);
        assert(chunk_b.groups@.to_set() =~= Set::<u64>::empty());
        chunk_b.groups@.unique_seq_to_set();
    }
}

/// A copy of a list of entries.
fn clone_entries(v: &Vec<(Identifier, ChunkGroupUkey)>) -> (r: Vec<(Identifier, ChunkGroupUkey)>)
    ensures
        r@ == v@,
{
    let mut r: Vec<(Identifier, ChunkGroupUkey)> = Vec::new();
    let mut i: usize = 0;
    while i < v.len()
        invariant
            i <= v@.len(),
            r@ == v@.take(i as int),
        decreases v@.len() - i,
    {
        let k = v[i].0.clone();
        r.push((k, v[i].1));
        proof {
            assert(v@.take(i + 1) =~= v@.take(i as int).push(v@[i as int]));
        }
        i = i + 1;
    }
    proof {
        assert(v@.take(v@.len() as int) =~= v@);
    }
    r
}

/// Module records after the modules in `moved_modules` and the entry modules
/// in `moved_entries` went over from chunk `from` to chunk `to`.
pub open spec fn cgms_integrated(
    before: Seq<ChunkGraphModule>,
    after: Seq<ChunkGraphModule>,
    ids: Seq<Seq<char>>,
    moved_modules: Set<Seq<char>>,
    moved_entries: Set<Seq<char>>,
    from: ChunkUkey,
    to: ChunkUkey,
) -> bool {
    &&& after.len() == before.len()
    &&& forall|i: int|
        0 <= i < before.len() ==> {
            &&& (#[trigger] after[i]).runtime_in_chunks == before[i].runtime_in_chunks
            &&& after[i].chunks@.to_set() == if moved_modules.contains(ids[i]) {
                before[i].chunks@.to_set().remove(from).insert(to)
            } else {
                before[i].chunks@.to_set()
            }
            &&& after[i].entry_in_chunks@.to_set() == if moved_entries.contains(ids[i]) {
                before[i].entry_in_chunks@.to_set().remove(from).insert(to)
            } else {
                before[i].entry_in_chunks@.to_set()
            }
        }
}

impl ChunkGraph {
    /// Merges chunk `b` into chunk `a`. `a` takes the name `integrated_names`
    /// gives, all of `b`'s naming hints and runtimes, those of `b`'s modules
    /// that the module graph has, and `b`'s entry modules in order (each
    /// moved to the end of `a`'s entries); `a` takes `b`'s place in each of
    /// `b`'s groups and belongs to them, and `b` to none.
    pub fn integrate_chunks(
        &mut self,
        module_graph: &ModuleGraph,
        chunk_group_by_ukey: &mut ChunkGroupByUkey,
        chunk_a: &mut Chunk,
        chunk_b: &mut Chunk,
    )
        requires
            old(self).wf(),
            old(self).chunks().contains_key(old(chunk_a).ukey),
            old(self).chunks().contains_key(old(chunk_b).ukey),
            old(chunk_a).ukey != old(chunk_b).ukey,
            chunk_wf(*old(chunk_a)),
            chunk_wf(*old(chunk_b)),
            names_fit(old(chunk_a).name, old(chunk_b).name),
            forall|m: Seq<char>|
                ids_in_graph(old(self).chunks()[old(chunk_b).ukey].modules@, *module_graph).contains(m)
                    ==> old(self).has_module(m),
            forall|m: Seq<char>|
                entry_keys(old(self).chunks()[old(chunk_b).ukey].entry_modules@).contains(m)
                    ==> old(self).has_module(m),
            groups_keyed(old(chunk_group_by_ukey)@),
            forall|g: u64| old(chunk_b).groups@.contains(g) ==> old(chunk_group_by_ukey)@.contains_key(g),
        ensures
            final(self).wf(),
            final(self).module_identifiers == old(self).module_identifiers,
            (name_view(final(chunk_a).name), name_view(final(chunk_b).name)) == integrated_names(
                name_view(old(chunk_a).name),
                name_view(old(chunk_b).name),
                old(self).chunks()[old(chunk_a).ukey].entry_modules@.len() > 0,
                old(self).chunks()[old(chunk_b).ukey].entry_modules@.len() > 0,
            ),
            chunk_wf(*final(chunk_a)),
            chunk_wf(*final(chunk_b)),
            id_set(final(chunk_a).id_name_hints@) == id_set(old(chunk_a).id_name_hints@) + id_set(
                old(chunk_b).id_name_hints@,
            ),
            final(chunk_b).id_name_hints == old(chunk_b).id_name_hints,
            id_set(final(chunk_a).runtime@) == id_set(old(chunk_a).runtime@) + id_set(
                old(chunk_b).runtime@,
            ),
            final(chunk_b).runtime == old(chunk_b).runtime,
            final(chunk_a).ukey == old(chunk_a).ukey,
            final(chunk_b).ukey == old(chunk_b).ukey,
            final(chunk_a).prevent_integration == old(chunk_a).prevent_integration,
            final(chunk_b).prevent_integration == old(chunk_b).prevent_integration,
            same_but_two(old(self).chunks(), final(self).chunks(), old(chunk_a).ukey, old(chunk_b).ukey),
            id_set(final(self).chunks()[old(chunk_a).ukey].modules@) == id_set(
                old(self).chunks()[old(chunk_a).ukey].modules@,
            ) + ids_in_graph(old(self).chunks()[old(chunk_b).ukey].modules@, *module_graph),
            id_set(final(self).chunks()[old(chunk_b).ukey].modules@) == id_set(
                old(self).chunks()[old(chunk_b).ukey].modules@,
            ) - ids_in_graph(old(self).chunks()[old(chunk_b).ukey].modules@, *module_graph),
            entries_view(final(self).chunks()[old(chunk_a).ukey].entry_modules@) == entries_inserted(
                entries_view(old(self).chunks()[old(chunk_a).ukey].entry_modules@),
                entries_view(old(self).chunks()[old(chunk_b).ukey].entry_modules@),
            ),
            final(self).chunks()[old(chunk_b).ukey].entry_modules@.len() == 0,
            final(self).chunks()[old(chunk_a).ukey].runtime_requirements == old(self).chunks()[old(chunk_a).ukey].runtime_requirements,
            final(self).chunks()[old(chunk_a).ukey].runtime_modules == old(self).chunks()[old(chunk_a).ukey].runtime_modules,
            final(self).chunks()[old(chunk_b).ukey].runtime_requirements == old(self).chunks()[old(chunk_b).ukey].runtime_requirements,
            final(self).chunks()[old(chunk_b).ukey].runtime_modules == old(self).chunks()[old(chunk_b).ukey].runtime_modules,
            cgms_integrated(
                old(self).chunk_graph_modules@,
                final(self).chunk_graph_modules@,
                old(self).module_ids(),
                ids_in_graph(old(self).chunks()[old(chunk_b).ukey].modules@, *module_graph),
                entry_keys(old(self).chunks()[old(chunk_b).ukey].entry_modules@).to_set(),
                old(chunk_b).ukey,
                old(chunk_a).ukey,
            ),
            groups_keyed(final(chunk_group_by_ukey)@),
            groups_replaced(
                old(chunk_group_by_ukey)@,
                final(chunk_group_by_ukey)@,
                old(chunk_b).groups@.to_set(),
                old(chunk_b).ukey,
                old(chunk_a).ukey,
            ),
            final(chunk_a).groups@.to_set() == old(chunk_a).groups@.to_set() + old(chunk_b).groups@.to_set(),
            final(chunk_b).groups@.len() == 0,
    {
        let a_has_entries = self.get_number_of_entry_modules(&chunk_a.ukey) > 0;
        let b_has_entries = self.get_number_of_entry_modules(&chunk_b.ukey) > 0;
        integrate_names(chunk_a, chunk_b, a_has_entries, b_has_entries);
        extend_identifiers(&mut chunk_a.id_name_hints, &chunk_b.id_name_hints);
        let mut runtime_a: Vec<String> = Vec::new();
        std::mem::swap(&mut runtime_a, &mut chunk_a.runtime);
        chunk_a.runtime = merge_runtime(runtime_a, chunk_b.runtime.clone());
        let ghost g0 = *self;
        self.move_chunk_modules(module_graph, chunk_b.ukey, chunk_a.ukey);
        let ghost g1 = *self;
        proof {
            assert(chunk_b.ukey == old(chunk_b).ukey);
            assert(chunk_a.ukey == old(chunk_a).ukey);
            assert(g0 == *old(self));
            assert(g1.module_ids() == g0.module_ids());
            assert(g1.chunks()[chunk_b.ukey].entry_modules == g0.chunks()[chunk_b.ukey].entry_modules);
            assert forall|m: Seq<char>|
                entry_keys(g1.chunks()[chunk_b.ukey].entry_modules@).contains(m) implies g1.has_module(m) by {
                assert(entry_keys(g0.chunks()[chunk_b.ukey].entry_modules@).contains(m));
                assert(g0.has_module(m));
            }
        }
        self.move_entry_modules(chunk_b.ukey, chunk_a.ukey);
        proof {
            assert forall|i: int| 0 <= i < g0.chunk_graph_modules@.len() implies {
                &&& (#[trigger] self.chunk_graph_modules@[i]).runtime_in_chunks
                    == g0.chunk_graph_modules@[i].runtime_in_chunks
                &&& self.chunk_graph_modules@[i].chunks@.to_set() == if ids_in_graph(
                    g0.chunks()[chunk_b.ukey].modules@,
                    *module_graph,
                ).contains(g0.module_ids()[i]) {
                    g0.chunk_graph_modules@[i].chunks@.to_set().remove(chunk_b.ukey).insert(chunk_a.ukey)
                } else {
                    g0.chunk_graph_modules@[i].chunks@.to_set()
                }
                &&& self.chunk_graph_modules@[i].entry_in_chunks@.to_set() == if entry_keys(
                    g0.chunks()[chunk_b.ukey].entry_modules@,
                ).to_set().contains(g0.module_ids()[i]) {
                    g0.chunk_graph_modules@[i].entry_in_chunks@.to_set().remove(chunk_b.ukey).insert(
                        chunk_a.ukey,
                    )
                } else {
                    g0.chunk_graph_modules@[i].entry_in_chunks@.to_set()
                }
            } by {
                assert(g1.chunk_graph_modules@[i].entry_in_chunks == g0.chunk_graph_modules@[i].entry_in_chunks);
            }
        }
        move_groups(chunk_group_by_ukey, chunk_a, chunk_b);
    }

    /// Moves the entry modules of chunk `from`, in order, over to chunk `to`,
    /// on both sides of the graph.
    fn move_entry_modules(&mut self, from: ChunkUkey, to: ChunkUkey)
        requires
            old(self).wf(),
            from != to,
            old(self).chunks().contains_key(from),
            old(self).chunks().contains_key(to),
            forall|m: Seq<char>|
                entry_keys(old(self).chunks()[from].entry_modules@).contains(m) ==> old(
                    self,
                ).has_module(m),
        ensures
            final(self).wf(),
            final(self).module_identifiers == old(self).module_identifiers,
            cgms_entries_moved(
                old(self).chunk_graph_modules@,
                final(self).chunk_graph_modules@,
                old(self).module_ids(),
                entry_keys(old(self).chunks()[from].entry_modules@).to_set(),
                from,
                to,
            ),
            same_but_two(old(self).chunks(), final(self).chunks(), from, to),
            entries_view(final(self).chunks()[to].entry_modules@) == entries_inserted(
                entries_view(old(self).chunks()[to].entry_modules@),
                entries_view(old(self).chunks()[from].entry_modules@),
            ),
            final(self).chunks()[from].entry_modules@.len() == 0,
            crate::chunk_graph::cgc_same_but_entries(
                final(self).chunks()[to],
                old(self).chunks()[to],
            ),
            crate::chunk_graph::cgc_same_but_entries(
                final(self).chunks()[from],
                old(self).chunks()[from],
            ),
    {
        let entries = clone_entries(
            &self.get_chunk_graph_chunk(&from).entry_modules,
        );
        let ghost orig = *old(self);
        let ghost es = entries_view(entries@);
        let ghost keys = entry_keys(entries@);
        let mut i: usize = 0;
        proof {
            assert(es.skip(0) =~= es);
            assert(es.take(0) =~= Seq::<(Seq<char>, ChunkGroupUkey)>::empty());
            assert(keys.take(0).to_set() =~= Set::<Seq<char>>::empty());
            assert forall|j: int| 0 <= j < orig.chunk_graph_modules@.len() implies {
                &&& (#[trigger] self.chunk_graph_modules@[j]).chunks == orig.chunk_graph_modules@[j].chunks
                &&& self.chunk_graph_modules@[j].runtime_in_chunks == orig.chunk_graph_modules@[j].runtime_in_chunks
                &&& self.chunk_graph_modules@[j].entry_in_chunks@.to_set() == if keys.take(0).to_set().contains(orig.module_ids()[j]) {
                    orig.chunk_graph_modules@[j].entry_in_chunks@.to_set().remove(from).insert(to)
                } else {
                    orig.chunk_graph_modules@[j].entry_in_chunks@.to_set()
                }
            } by {}
            assert(self.chunks().dom() =~= orig.chunks().dom());
        }
        while i < entries.len()
            invariant
                self.wf(),
                orig == *old(self),
                orig.chunks().contains_key(from),
                orig.chunks().contains_key(to),
                from != to,
                entries@ == orig.chunks()[from].entry_modules@,
                es == entries_view(entries@),
                keys == entry_keys(entries@),
                keys.no_duplicates(),
                i <= entries@.len(),
                self.module_identifiers == orig.module_identifiers,
                forall|m: Seq<char>| keys.contains(m) ==> orig.has_module(m),
                cgms_entries_moved(
                    orig.chunk_graph_modules@,
                    self.chunk_graph_modules@,
                    orig.module_ids(),
                    keys.take(i as int).to_set(),
                    from,
                    to,
                ),
                same_but_two(orig.chunks(), self.chunks(), from, to),
                entries_view(self.chunks()[to].entry_modules@) == entries_inserted(
                    entries_view(orig.chunks()[to].entry_modules@),
                    es.take(i as int),
                ),
                entries_view(self.chunks()[from].entry_modules@) == es.skip(i as int),
                crate::chunk_graph::cgc_same_but_entries(self.chunks()[to], orig.chunks()[to]),
                crate::chunk_graph::cgc_same_but_entries(
                    self.chunks()[from],
                    orig.chunks()[from],
                ),
            decreases entries@.len() - i,
        {
            let k = entries[i].0.clone();
            let g = entries[i].1;
            proof {
                assert(keys[i as int] == k@);
                assert(keys.contains(k@));
                assert(keys.take(i + 1) =~= keys.take(i as int).push(k@));
                keys.take(i as int).lemma_push_to_set_commute(k@);
                assert(es[i as int] == (k@, g));
                assert(es.take(i + 1) =~= es.take(i as int).push((k@, g)));
                assert(es.take(i + 1).drop_last() =~= es.take(i as int));
            }
            let ghost mid0 = *self;
            self.disconnect_chunk_and_entry_module(from, k.clone());
            let ghost mid1 = *self;
            self.connect_chunk_and_entry_module(to, k, g);
            proof {
                let p1 = keys.take(i + 1).to_set();
                let idx = orig.module_index(k@);
                let rest = es.skip(i as int);
                assert forall|t: int| 0 <= t < rest.len() && t != 0 implies key_not::<ChunkGroupUkey>(k@)(
                    #[trigger] rest[t],
                ) by {
                    assert(rest[t] == es[i + t]);
                    assert(keys[i + t] != keys[i as int]);
                }
                crate::collections::lemma_filter_one(rest, 0, key_not::<ChunkGroupUkey>(k@));
                assert(rest.remove(0) =~= es.skip(i + 1));
                assert forall|j: int| 0 <= j < orig.chunk_graph_modules@.len() implies {
                    &&& (#[trigger] self.chunk_graph_modules@[j]).chunks == orig.chunk_graph_modules@[j].chunks
                    &&& self.chunk_graph_modules@[j].runtime_in_chunks == orig.chunk_graph_modules@[j].runtime_in_chunks
                    &&& self.chunk_graph_modules@[j].entry_in_chunks@.to_set() == if p1.contains(orig.module_ids()[j]) {
                        orig.chunk_graph_modules@[j].entry_in_chunks@.to_set().remove(from).insert(to)
                    } else {
                        orig.chunk_graph_modules@[j].entry_in_chunks@.to_set()
                    }
                } by {
                    if j == idx {
                        assert(orig.module_ids()[j] == k@);
                        assert(self.chunk_graph_modules@[j] == self.cgm(k@));
                        assert(mid1.chunk_graph_modules@[j] == mid1.cgm(k@));
                        assert(mid0.chunk_graph_modules@[j] == mid0.cgm(k@));
                        assert(self.chunk_graph_modules@[j].entry_in_chunks@.to_set() =~= orig.chunk_graph_modules@[j].entry_in_chunks@.to_set().remove(from).insert(to));
                    } else {
                        assert(self.chunk_graph_modules@[j] == mid0.chunk_graph_modules@[j]);
                        if orig.module_ids()[j] == k@ {
                            orig.lemma_module_index(j);
                        }
                    }
                }
                assert forall|c: ChunkUkey|
                    #[trigger] orig.chunks().contains_key(c) && c != from && c != to implies self.chunks()[c] == orig.chunks()[c] by {
                    assert(mid0.chunks()[c] == orig.chunks()[c]);
                }
                assert(self.chunks().dom() =~= orig.chunks().dom());
            }
            i = i + 1;
        }
        proof {
            assert(es.take(entries@.len() as int) =~= es);
            assert(keys.take(entries@.len() as int) =~= keys);
            assert(entries_view(self.chunks()[from].entry_modules@).len() == 0);
        }
    }

    /// Moves the modules of chunk `from` that the module graph has over to
    /// chunk `to`, on both sides of the graph.
    fn move_chunk_modules(&mut self, module_graph: &ModuleGraph, from: ChunkUkey, to: ChunkUkey)
        requires
            old(self).wf(),
            from != to,
            old(self).chunks().contains_key(from),
            old(self).chunks().contains_key(to),
            forall|m: Seq<char>|
                ids_in_graph(old(self).chunks()[from].modules@, *module_graph).contains(m)
                    ==> old(self).has_module(m),
        ensures
            final(self).wf(),
            final(self).module_identifiers == old(self).module_identifiers,
            cgms_modules_moved(
                old(self).chunk_graph_modules@,
                final(self).chunk_graph_modules@,
                old(self).module_ids(),
                ids_in_graph(old(self).chunks()[from].modules@, *module_graph),
                from,
                to,
            ),
            same_but_two(old(self).chunks(), final(self).chunks(), from, to),
            id_set(final(self).chunks()[to].modules@) == id_set(old(self).chunks()[to].modules@)
                + ids_in_graph(old(self).chunks()[from].modules@, *module_graph),
            id_set(final(self).chunks()[from].modules@) == id_set(
                old(self).chunks()[from].modules@,
            ) - ids_in_graph(old(self).chunks()[from].modules@, *module_graph),
            crate::chunk_graph::cgc_same_but_modules(
                final(self).chunks()[to],
                old(self).chunks()[to],
            ),
            crate::chunk_graph::cgc_same_but_modules(
                final(self).chunks()[from],
                old(self).chunks()[from],
            ),
    {
        let modules = self.get_chunk_modules(&from, module_graph);
        let ghost moved = ids_in_graph(old(self).chunks()[from].modules@, *module_graph);
        let ghost mseq = derefs(modules@).map_values(|m: Module| m.identifier@);
        let ghost orig = *old(self);
        let mut i: usize = 0;
        proof {
            assert(id_set(self.chunks()[to].modules@) + Set::<Seq<char>>::empty() =~= id_set(
                self.chunks()[to].modules@,
            ));
        }
        while i < modules.len()
            invariant
                self.wf(),
                orig == *old(self),
                orig.chunks().contains_key(from),
                orig.chunks().contains_key(to),
                moved == ids_in_graph(orig.chunks()[from].modules@, *module_graph),
                mseq == derefs(modules@).map_values(|m: Module| m.identifier@),
                mseq.to_set() == moved,
                from != to,
                i <= modules@.len(),
                self.module_identifiers == orig.module_identifiers,
                forall|m: Seq<char>| moved.contains(m) ==> orig.has_module(m),
                cgms_modules_moved(
                    orig.chunk_graph_modules@,
                    self.chunk_graph_modules@,
                    orig.module_ids(),
                    mseq.take(i as int).to_set(),
                    from,
                    to,
                ),
                same_but_two(orig.chunks(), self.chunks(), from, to),
                id_set(self.chunks()[to].modules@) == id_set(orig.chunks()[to].modules@)
                    + mseq.take(i as int).to_set(),
                id_set(self.chunks()[from].modules@) == id_set(orig.chunks()[from].modules@)
                    - mseq.take(i as int).to_set(),
                crate::chunk_graph::cgc_same_but_modules(self.chunks()[to], orig.chunks()[to]),
                crate::chunk_graph::cgc_same_but_modules(
                    self.chunks()[from],
                    orig.chunks()[from],
                ),
            decreases modules@.len() - i,
        {
            let id = modules[i].identifier().clone();
            proof {
                assert(mseq[i as int] == id@);
                assert(moved.contains(id@));
                assert(mseq.take(i + 1) =~= mseq.take(i as int).push(id@));
                mseq.take(i as int).lemma_push_to_set_commute(id@);
            }
            let ghost mid0 = *self;
            self.disconnect_chunk_and_module(&from, id.clone());
            let ghost mid1 = *self;
            self.connect_chunk_and_module(to, id);
            proof {
                let p0 = mseq.take(i as int).to_set();
                let p1 = mseq.take(i + 1).to_set();
                let idx = orig.module_index(id@);
                assert forall|j: int| 0 <= j < orig.chunk_graph_modules@.len() implies {
                    &&& (#[trigger] self.chunk_graph_modules@[j]).entry_in_chunks
                        == orig.chunk_graph_modules@[j].entry_in_chunks
                    &&& self.chunk_graph_modules@[j].runtime_in_chunks
                        == orig.chunk_graph_modules@[j].runtime_in_chunks
                    &&& self.chunk_graph_modules@[j].chunks@.to_set() == if p1.contains(
                        orig.module_ids()[j],
                    ) {
                        orig.chunk_graph_modules@[j].chunks@.to_set().remove(from).insert(to)
                    } else {
                        orig.chunk_graph_modules@[j].chunks@.to_set()
                    }
                } by {
                    if j == idx {
                        assert(orig.module_ids()[j] == id@);
                        assert(self.chunk_graph_modules@[j] == self.cgm(id@));
                        assert(mid1.chunk_graph_modules@[j] == mid1.cgm(id@));
                        assert(mid0.chunk_graph_modules@[j] == mid0.cgm(id@));
                        assert(self.chunk_graph_modules@[j].chunks@.to_set() =~= orig.chunk_graph_modules@[j].chunks@.to_set().remove(from).insert(to));
                    } else {
                        assert(self.chunk_graph_modules@[j] == mid0.chunk_graph_modules@[j]);
                        if orig.module_ids()[j] == id@ {
                            orig.lemma_module_index(j);
                        }
                    }
                }
                assert(id_set(self.chunks()[to].modules@) =~= id_set(orig.chunks()[to].modules@) + p1);
                assert(id_set(self.chunks()[from].modules@) =~= id_set(orig.chunks()[from].modules@) - p1);
                assert forall|k: ChunkUkey|
                    #[trigger] orig.chunks().contains_key(k) && k != from && k != to implies self.chunks()[k] == orig.chunks()[k] by {
                    assert(mid0.chunks()[k] == orig.chunks()[k]);
                }
                assert(self.chunks().dom() =~= orig.chunks().dom());
            }
            i = i + 1;
        }
        proof {
            assert(mseq.take(modules@.len() as int) =~= mseq);
        }
    }
}

} // verus!
