//! The chunk graph records which chunks hold which modules from both sides;
//! every operation on that relation keeps the two sides in step.

use crate::chunk::ChunkUkey;
use crate::chunk_graph::{
    added_chunk, added_module, cgc_empty, cgm_empty, connected_entry, connected_module,
    disconnected_entry, disconnected_module, ChunkGraph,
};
use crate::chunk_disconnect::disconnected_chunk;
use crate::chunk_integration::{cgms_integrated, ids_in_graph, same_but_two};
use crate::chunk_modules::lookup_module;
use crate::collections::{entries_view, entry_keys, id_set, ids_view, key_not};
use crate::comparators::Identifier;
use crate::module_graph::{lemma_first_match, module_named, Module, ModuleGraph};
use vstd::prelude::*;

verus! {

/// The two sides agree: every module a chunk holds is known, and a known
/// module's record lists exactly the chunks that hold it.
pub open spec fn mirrored(g: ChunkGraph) -> bool {
    &&& forall|c: ChunkUkey, m: Seq<char>|
        g.chunks().contains_key(c) && #[trigger] id_set(g.chunks()[c].modules@).contains(m) ==> g.has_module(m)
    &&& forall|c: ChunkUkey, m: Seq<char>|
        #![trigger g.cgm(m).chunks@.contains(c)]
        #![trigger id_set(g.chunks()[c].modules@).contains(m)]
        g.has_module(m) ==> (g.cgm(m).chunks@.contains(c) <==> g.chunks().contains_key(c) && id_set(
            g.chunks()[c].modules@,
        ).contains(m))
}

/// Two known modules have their records at different places.
proof fn lemma_module_index_distinct(g: ChunkGraph, m1: Seq<char>, m2: Seq<char>)
    requires
        g.wf(),
        g.has_module(m1),
        g.has_module(m2),
        m1 != m2,
    ensures
        0 <= g.module_index(m1) < g.chunk_graph_modules@.len(),
        0 <= g.module_index(m2) < g.chunk_graph_modules@.len(),
        g.module_index(m1) != g.module_index(m2),
{
    assert(g.module_ids().len() == g.module_identifiers@.len());
}

/// A known module's record stands inside the list of records.
proof fn lemma_module_index_in_range(g: ChunkGraph, m: Seq<char>)
    requires
        g.wf(),
        g.has_module(m),
    ensures
        0 <= g.module_index(m) < g.chunk_graph_modules@.len(),
        g.module_ids()[g.module_index(m)] == m,
{
    assert(g.module_ids().len() == g.module_identifiers@.len());
}

/// A graph with no chunks and no modules has both sides in step.
pub proof fn law_empty_graph_mirrored(g: ChunkGraph)
    requires
        g.chunks() == Map::<ChunkUkey, crate::chunk_graph::ChunkGraphChunk>::empty(),
        g.module_ids() == Seq::<Seq<char>>::empty(),
    ensures
        mirrored(g),
{
}

/// Connecting a chunk and a module keeps both sides in step.
pub proof fn law_connect_keeps_mirrored(g0: ChunkGraph, g1: ChunkGraph, c: ChunkUkey, m: Seq<char>)
    requires
        g0.wf(),
        mirrored(g0),
        g0.chunks().contains_key(c),
        g0.has_module(m),
        connected_module(g0, g1, c, m),
    ensures
        mirrored(g1),
{
    assert(g1.module_ids() == g0.module_ids());
    lemma_module_index_in_range(g0, m);
    assert forall|c2: ChunkUkey, m2: Seq<char>|
        g1.chunks().contains_key(c2) && #[trigger] id_set(g1.chunks()[c2].modules@).contains(m2) implies g1.has_module(m2) by {
        if c2 != c {
            assert(g1.chunks()[c2] == g0.chunks()[c2]);
        }
    }
    assert forall|c2: ChunkUkey, m2: Seq<char>| g1.has_module(m2) implies (g1.cgm(m2).chunks@.contains(c2) <==> g1.chunks().contains_key(c2) && id_set(
        g1.chunks()[c2].modules@,
    ).contains(m2)) by {
        if c2 != c {
            assert(g1.chunks()[c2] == g0.chunks()[c2]);
        }
        if m2 == m {
            assert(g1.cgm(m).chunks@.contains(c2) <==> g1.cgm(m).chunks@.to_set().contains(c2));
            assert(g0.cgm(m).chunks@.contains(c2) <==> g0.cgm(m).chunks@.to_set().contains(c2));
        } else {
            lemma_module_index_distinct(g0, m, m2);
            assert(g1.cgm(m2) == g0.cgm(m2));
        }
    }
}

/// Disconnecting a chunk and a module keeps both sides in step.
pub proof fn law_disconnect_keeps_mirrored(g0: ChunkGraph, g1: ChunkGraph, c: ChunkUkey, m: Seq<char>)
    requires
        g0.wf(),
        mirrored(g0),
        g0.chunks().contains_key(c),
        g0.has_module(m),
        disconnected_module(g0, g1, c, m),
    ensures
        mirrored(g1),
{
    assert(g1.module_ids() == g0.module_ids());
    lemma_module_index_in_range(g0, m);
    assert forall|c2: ChunkUkey, m2: Seq<char>|
        g1.chunks().contains_key(c2) && #[trigger] id_set(g1.chunks()[c2].modules@).contains(m2) implies g1.has_module(m2) by {
        if c2 != c {
            assert(g1.chunks()[c2] == g0.chunks()[c2]);
        }
    }
    assert forall|c2: ChunkUkey, m2: Seq<char>| g1.has_module(m2) implies (g1.cgm(m2).chunks@.contains(c2) <==> g1.chunks().contains_key(c2) && id_set(
        g1.chunks()[c2].modules@,
    ).contains(m2)) by {
        if c2 != c {
            assert(g1.chunks()[c2] == g0.chunks()[c2]);
        }
        if m2 == m {
            assert(g1.cgm(m).chunks@.contains(c2) <==> g1.cgm(m).chunks@.to_set().contains(c2));
            assert(g0.cgm(m).chunks@.contains(c2) <==> g0.cgm(m).chunks@.to_set().contains(c2));
        } else {
            lemma_module_index_distinct(g0, m, m2);
            assert(g1.cgm(m2) == g0.cgm(m2));
        }
    }
}

/// Adding a chunk keeps both sides in step.
pub proof fn law_add_chunk_keeps_mirrored(g0: ChunkGraph, g1: ChunkGraph, c: ChunkUkey)
    requires
        mirrored(g0),
        added_chunk(g0, g1, c),
    ensures
        mirrored(g1),
{
    assert(g1.module_ids() == g0.module_ids());
    assert forall|m2: Seq<char>| #[trigger] g1.cgm(m2) == g0.cgm(m2) by {}
    if !g0.chunks().contains_key(c) {
        assert(id_set(g1.chunks()[c].modules@) =~= Set::empty());
        assert forall|c2: ChunkUkey, m2: Seq<char>|
            g1.chunks().contains_key(c2) && #[trigger] id_set(g1.chunks()[c2].modules@).contains(m2) implies g1.has_module(m2) by {
            if c2 != c {
                assert(g1.chunks().remove(c).contains_key(c2));
                assert(g1.chunks().remove(c)[c2] == g0.chunks()[c2]);
            }
        }
        assert forall|c2: ChunkUkey| c2 != c && #[trigger] g1.chunks().contains_key(c2) implies g1.chunks()[c2] == g0.chunks()[c2] && g0.chunks().contains_key(c2) by {
            assert(g1.chunks().remove(c).contains_key(c2));
        }
        assert forall|c2: ChunkUkey, m2: Seq<char>| g1.has_module(m2) implies (g1.cgm(m2).chunks@.contains(c2) <==> g1.chunks().contains_key(c2) && id_set(
            g1.chunks()[c2].modules@,
        ).contains(m2)) by {
            assert(g1.cgm(m2) == g0.cgm(m2));
            if c2 == c {
                assert(!id_set(g1.chunks()[c].modules@).contains(m2));
            } else if g0.chunks().contains_key(c2) {
                assert(g1.chunks().remove(c)[c2] == g0.chunks()[c2]);
            }
        }
    }
}

/// Adding a module keeps both sides in step.
pub proof fn law_add_module_keeps_mirrored(g0: ChunkGraph, g1: ChunkGraph, m: Seq<char>)
    requires
        g0.wf(),
        g1.wf(),
        mirrored(g0),
        added_module(g0, g1, m),
    ensures
        mirrored(g1),
{
    if !g0.has_module(m) {
        let n = g0.chunk_graph_modules@.len();
        assert(g0.module_ids().len() == n);
        assert forall|c2: ChunkUkey, m2: Seq<char>|
            g1.chunks().contains_key(c2) && #[trigger] id_set(g1.chunks()[c2].modules@).contains(m2) implies g1.has_module(m2) by {
            assert(g0.has_module(m2));
            let t = choose|t: int| 0 <= t < g0.module_ids().len() && g0.module_ids()[t] == m2;
            assert(g1.module_ids()[t] == m2);
        }
        assert forall|c2: ChunkUkey, m2: Seq<char>| g1.has_module(m2) implies (g1.cgm(m2).chunks@.contains(c2) <==> g1.chunks().contains_key(c2) && id_set(
            g1.chunks()[c2].modules@,
        ).contains(m2)) by {
            lemma_module_index_in_range(g1, m2);
            if m2 == m {
                assert(g1.cgm(m).chunks@.len() == 0);
                if g1.chunks().contains_key(c2) && id_set(g1.chunks()[c2].modules@).contains(m2) {
                    assert(g0.has_module(m2));
                }
            } else {
                let i = g1.module_index(m2);
                assert(g1.module_ids()[i] == m2);
                assert(i < n) by {
                    if i == n {
                        assert(g1.module_ids()[n as int] == m);
                    }
                }
                assert(g0.module_ids()[i] == m2);
                assert(g0.has_module(m2));
                lemma_module_index_in_range(g0, m2);
                let j = g0.module_index(m2);
                assert(g1.module_ids()[j] == m2);
                assert(i == j) by {
                    assert(g1.module_ids().no_duplicates());
                }
                assert(g1.chunk_graph_modules@.take(n as int)[i] == g1.chunk_graph_modules@[i]);
                assert(g1.cgm(m2) == g0.cgm(m2));
            }
        }
    }
}


/// Taking all modules out of a chunk keeps both sides in step.
pub proof fn law_disconnect_chunk_keeps_mirrored(g0: ChunkGraph, g1: ChunkGraph, c: ChunkUkey)
    requires
        g0.wf(),
        mirrored(g0),
        g0.chunks().contains_key(c),
        disconnected_chunk(g0, g1, c),
    ensures
        mirrored(g1),
{
    assert(g1.module_ids() == g0.module_ids());
    assert(id_set(g1.chunks()[c].modules@) =~= Set::empty());
    assert forall|c2: ChunkUkey, m2: Seq<char>|
        g1.chunks().contains_key(c2) && #[trigger] id_set(g1.chunks()[c2].modules@).contains(m2) implies g1.has_module(m2) by {
        if c2 != c {
            assert(g1.chunks()[c2] == g0.chunks()[c2]);
        }
    }
    assert forall|c2: ChunkUkey, m2: Seq<char>| g1.has_module(m2) implies (g1.cgm(m2).chunks@.contains(c2) <==> g1.chunks().contains_key(c2) && id_set(
        g1.chunks()[c2].modules@,
    ).contains(m2)) by {
        lemma_module_index_in_range(g0, m2);
        let i = g0.module_index(m2);
        assert(g0.module_ids()[i] == m2);
        assert(g1.cgm(m2) == g1.chunk_graph_modules@[i]);
        assert(g1.cgm(m2).chunks@.contains(c2) <==> g1.cgm(m2).chunks@.to_set().contains(c2));
        assert(g0.cgm(m2).chunks@.contains(c2) <==> g0.cgm(m2).chunks@.to_set().contains(c2));
        if c2 != c {
            assert(g1.chunks()[c2] == g0.chunks()[c2]);
        }
    }
}


/// The modules of a list that the module graph has are in the list.
proof fn lemma_ids_in_graph_subset(ids: Seq<Identifier>, g: ModuleGraph)
    ensures
        ids_in_graph(ids, g).subset_of(id_set(ids)),
    decreases ids.len(),
{
    if ids.len() > 0 {
        let d = ids.drop_last();
        lemma_ids_in_graph_subset(d, g);
        let f = lookup_module(g);
        let name = |m: Module| m.identifier@;
        let last = ids.last();
        assert(ids_view(ids) =~= ids_view(d).push(last@));
        ids_view(d).lemma_push_to_set_commute(last@);
        match f(last) {
            Some(m) => {
                assert(ids.filter_map(f) == d.filter_map(f) + seq![m]);
                assert(ids.filter_map(f).map_values(name) =~= d.filter_map(f).map_values(name).push(m.identifier@));
                d.filter_map(f).map_values(name).lemma_push_to_set_commute(m.identifier@);
                lemma_first_match(g.modules@, module_named(last@));
                assert(m.identifier@ == last@);
            },
            None => {
                assert(ids.filter_map(f) == d.filter_map(f));
            },
        }
    }
}

/// Merging one chunk into another keeps both sides in step.
pub proof fn law_integrate_keeps_mirrored(
    g0: ChunkGraph,
    g1: ChunkGraph,
    mg: ModuleGraph,
    a: ChunkUkey,
    b: ChunkUkey,
    moved_entries: Set<Seq<char>>,
)
    requires
        g0.wf(),
        mirrored(g0),
        a != b,
        g0.chunks().contains_key(a),
        g0.chunks().contains_key(b),
        g1.module_identifiers == g0.module_identifiers,
        same_but_two(g0.chunks(), g1.chunks(), a, b),
        id_set(g1.chunks()[a].modules@) == id_set(g0.chunks()[a].modules@) + ids_in_graph(g0.chunks()[b].modules@, mg),
        id_set(g1.chunks()[b].modules@) == id_set(g0.chunks()[b].modules@) - ids_in_graph(g0.chunks()[b].modules@, mg),
        cgms_integrated(
            g0.chunk_graph_modules@,
            g1.chunk_graph_modules@,
            g0.module_ids(),
            ids_in_graph(g0.chunks()[b].modules@, mg),
            moved_entries,
            b,
            a,
        ),
    ensures
        mirrored(g1),
{
    let moved = ids_in_graph(g0.chunks()[b].modules@, mg);
    lemma_ids_in_graph_subset(g0.chunks()[b].modules@, mg);
    assert(g1.module_ids() == g0.module_ids());
    assert forall|c2: ChunkUkey, m2: Seq<char>|
        g1.chunks().contains_key(c2) && #[trigger] id_set(g1.chunks()[c2].modules@).contains(m2) implies g1.has_module(m2) by {
        assert(g0.chunks().contains_key(c2));
        if c2 != a && c2 != b {
            assert(g1.chunks()[c2] == g0.chunks()[c2]);
        } else if c2 == a && !id_set(g0.chunks()[a].modules@).contains(m2) {
            assert(id_set(g0.chunks()[b].modules@).contains(m2));
        }
    }
    assert forall|c2: ChunkUkey, m2: Seq<char>| g1.has_module(m2) implies (g1.cgm(m2).chunks@.contains(c2) <==> g1.chunks().contains_key(c2) && id_set(
        g1.chunks()[c2].modules@,
    ).contains(m2)) by {
        lemma_module_index_in_range(g0, m2);
        let i = g0.module_index(m2);
        assert(g0.module_ids()[i] == m2);
        assert(g1.cgm(m2) == g1.chunk_graph_modules@[i]);
        assert(g1.cgm(m2).chunks@.contains(c2) <==> g1.cgm(m2).chunks@.to_set().contains(c2));
        assert(g0.cgm(m2).chunks@.contains(c2) <==> g0.cgm(m2).chunks@.to_set().contains(c2));
        assert(g1.chunks().contains_key(c2) == g0.chunks().contains_key(c2));
        if c2 != a && c2 != b && g0.chunks().contains_key(c2) {
            assert(g1.chunks()[c2] == g0.chunks()[c2]);
        }
    }
}


/// The entry side of the graph agrees too: every entry module of a chunk is
/// known, and a known module's record lists exactly the chunks it is an
/// entry module of.
pub open spec fn entries_mirrored(g: ChunkGraph) -> bool {
    &&& forall|c: ChunkUkey, m: Seq<char>|
        g.chunks().contains_key(c) && #[trigger] entry_keys(g.chunks()[c].entry_modules@).contains(m) ==> g.has_module(m)
    &&& forall|c: ChunkUkey, m: Seq<char>|
        #![trigger g.cgm(m).entry_in_chunks@.contains(c)]
        #![trigger entry_keys(g.chunks()[c].entry_modules@).contains(m)]
        g.has_module(m) ==> (g.cgm(m).entry_in_chunks@.contains(c) <==> g.chunks().contains_key(c)
            && entry_keys(g.chunks()[c].entry_modules@).contains(m))
}

/// The keys of a list of entries.
pub open spec fn key_set(s: Seq<(Seq<char>, u64)>) -> Set<Seq<char>> {
    s.map_values(|p: (Seq<char>, u64)| p.0).to_set()
}

/// Dropping the entries with a key drops that key.
proof fn lemma_key_set_filter(s: Seq<(Seq<char>, u64)>, k: Seq<char>)
    ensures
        key_set(s.filter(key_not(k))) == key_set(s).remove(k),
    decreases s.len(),
{
    reveal(Seq::filter);
    let f = |p: (Seq<char>, u64)| p.0;
    if s.len() == 0 {
        assert(key_set(s) =~= Set::empty());
        assert(key_set(s.filter(key_not(k))) =~= Set::empty());
    } else {
        let d = s.drop_last();
        lemma_key_set_filter(d, k);
        assert(s.map_values(f) =~= d.map_values(f).push(s.last().0));
        d.map_values(f).lemma_push_to_set_commute(s.last().0);
        if key_not::<u64>(k)(s.last()) {
            assert(s.filter(key_not(k)) == d.filter(key_not(k)).push(s.last()));
            assert(s.filter(key_not(k)).map_values(f) =~= d.filter(key_not(k)).map_values(f).push(s.last().0));
            d.filter(key_not(k)).map_values(f).lemma_push_to_set_commute(s.last().0);
        } else {
            assert(s.filter(key_not(k)) == d.filter(key_not(k)));
        }
        assert(key_set(s.filter(key_not(k))) =~= key_set(s).remove(k));
    }
}

/// The keys of a chunk's entries are the keys of its entries' view.
proof fn lemma_entry_keys(v: Seq<(String, u64)>)
    ensures
        entry_keys(v).to_set() == key_set(entries_view(v)),
{
    assert(entry_keys(v) =~= entries_view(v).map_values(|p: (Seq<char>, u64)| p.0));
}

/// A graph with no chunks and no modules has its entry side in step.
pub proof fn law_empty_graph_entries_mirrored(g: ChunkGraph)
    requires
        g.chunks() == Map::<ChunkUkey, crate::chunk_graph::ChunkGraphChunk>::empty(),
        g.module_ids() == Seq::<Seq<char>>::empty(),
    ensures
        entries_mirrored(g),
{
}

/// Making a module an entry module of a chunk keeps the entry side in step.
pub proof fn law_connect_entry_keeps_entries_mirrored(
    g0: ChunkGraph,
    g1: ChunkGraph,
    c: ChunkUkey,
    m: Seq<char>,
    entrypoint: u64,
)
    requires
        g0.wf(),
        entries_mirrored(g0),
        g0.chunks().contains_key(c),
        g0.has_module(m),
        connected_entry(g0, g1, c, m, entrypoint),
    ensures
        entries_mirrored(g1),
{
    assert(g1.module_ids() == g0.module_ids());
    lemma_module_index_in_range(g0, m);
    let ev0 = entries_view(g0.chunks()[c].entry_modules@);
    lemma_key_set_filter(ev0, m);
    lemma_entry_keys(g0.chunks()[c].entry_modules@);
    lemma_entry_keys(g1.chunks()[c].entry_modules@);
    let f = |p: (Seq<char>, u64)| p.0;
    assert(ev0.filter(key_not(m)).push((m, entrypoint)).map_values(f) =~= ev0.filter(key_not(m)).map_values(f).push(m));
    ev0.filter(key_not(m)).map_values(f).lemma_push_to_set_commute(m);
    assert(entry_keys(g1.chunks()[c].entry_modules@).to_set() =~= entry_keys(g0.chunks()[c].entry_modules@).to_set().insert(m));
    assert forall|c2: ChunkUkey, m2: Seq<char>|
        g1.chunks().contains_key(c2) && #[trigger] entry_keys(g1.chunks()[c2].entry_modules@).contains(m2) implies g1.has_module(m2) by {
        if c2 != c {
            assert(g1.chunks()[c2] == g0.chunks()[c2]);
        } else {
            assert(entry_keys(g1.chunks()[c].entry_modules@).to_set().contains(m2));
            if m2 != m {
                assert(entry_keys(g0.chunks()[c].entry_modules@).to_set().contains(m2));
            }
        }
    }
    assert forall|c2: ChunkUkey, m2: Seq<char>| g1.has_module(m2) implies (g1.cgm(m2).entry_in_chunks@.contains(c2) <==> g1.chunks().contains_key(c2)
        && entry_keys(g1.chunks()[c2].entry_modules@).contains(m2)) by {
        if c2 != c {
            assert(g1.chunks()[c2] == g0.chunks()[c2]);
        } else {
            assert(entry_keys(g1.chunks()[c].entry_modules@).contains(m2) <==> entry_keys(g1.chunks()[c].entry_modules@).to_set().contains(m2));
            assert(entry_keys(g0.chunks()[c].entry_modules@).contains(m2) <==> entry_keys(g0.chunks()[c].entry_modules@).to_set().contains(m2));
        }
        if m2 == m {
            assert(g1.cgm(m).entry_in_chunks@.contains(c2) <==> g1.cgm(m).entry_in_chunks@.to_set().contains(c2));
            assert(g0.cgm(m).entry_in_chunks@.contains(c2) <==> g0.cgm(m).entry_in_chunks@.to_set().contains(c2));
        } else {
            lemma_module_index_distinct(g0, m, m2);
            assert(g1.cgm(m2) == g0.cgm(m2));
        }
    }
}

/// Making a module no longer an entry module of a chunk keeps the entry
/// side in step.
pub proof fn law_disconnect_entry_keeps_entries_mirrored(g0: ChunkGraph, g1: ChunkGraph, c: ChunkUkey, m: Seq<char>)
    requires
        g0.wf(),
        entries_mirrored(g0),
        g0.chunks().contains_key(c),
        g0.has_module(m),
        disconnected_entry(g0, g1, c, m),
    ensures
        entries_mirrored(g1),
{
    assert(g1.module_ids() == g0.module_ids());
    lemma_module_index_in_range(g0, m);
    let ev0 = entries_view(g0.chunks()[c].entry_modules@);
    lemma_key_set_filter(ev0, m);
    lemma_entry_keys(g0.chunks()[c].entry_modules@);
    lemma_entry_keys(g1.chunks()[c].entry_modules@);
    assert(entry_keys(g1.chunks()[c].entry_modules@).to_set() =~= entry_keys(g0.chunks()[c].entry_modules@).to_set().remove(m));
    assert forall|c2: ChunkUkey, m2: Seq<char>|
        g1.chunks().contains_key(c2) && #[trigger] entry_keys(g1.chunks()[c2].entry_modules@).contains(m2) implies g1.has_module(m2) by {
        if c2 != c {
            assert(g1.chunks()[c2] == g0.chunks()[c2]);
        } else {
            assert(entry_keys(g1.chunks()[c].entry_modules@).to_set().contains(m2));
            assert(entry_keys(g0.chunks()[c].entry_modules@).to_set().contains(m2));
        }
    }
    assert forall|c2: ChunkUkey, m2: Seq<char>| g1.has_module(m2) implies (g1.cgm(m2).entry_in_chunks@.contains(c2) <==> g1.chunks().contains_key(c2)
        && entry_keys(g1.chunks()[c2].entry_modules@).contains(m2)) by {
        if c2 != c {
            assert(g1.chunks()[c2] == g0.chunks()[c2]);
        } else {
            assert(entry_keys(g1.chunks()[c].entry_modules@).contains(m2) <==> entry_keys(g1.chunks()[c].entry_modules@).to_set().contains(m2));
            assert(entry_keys(g0.chunks()[c].entry_modules@).contains(m2) <==> entry_keys(g0.chunks()[c].entry_modules@).to_set().contains(m2));
        }
        if m2 == m {
            assert(g1.cgm(m).entry_in_chunks@.contains(c2) <==> g1.cgm(m).entry_in_chunks@.to_set().contains(c2));
            assert(g0.cgm(m).entry_in_chunks@.contains(c2) <==> g0.cgm(m).entry_in_chunks@.to_set().contains(c2));
        } else {
            lemma_module_index_distinct(g0, m, m2);
            assert(g1.cgm(m2) == g0.cgm(m2));
        }
    }
}


/// Connecting or disconnecting a chunk and a module leaves the entry side
/// in step.
pub proof fn law_module_ops_keep_entries_mirrored(g0: ChunkGraph, g1: ChunkGraph, c: ChunkUkey, m: Seq<char>)
    requires
        g0.wf(),
        entries_mirrored(g0),
        g0.chunks().contains_key(c),
        g0.has_module(m),
        connected_module(g0, g1, c, m) || disconnected_module(g0, g1, c, m),
    ensures
        entries_mirrored(g1),
{
    assert(g1.module_ids() == g0.module_ids());
    lemma_module_index_in_range(g0, m);
    assert forall|c2: ChunkUkey| #[trigger] g1.chunks().contains_key(c2) implies g1.chunks()[c2].entry_modules == g0.chunks()[c2].entry_modules && g0.chunks().contains_key(c2) by {
        if c2 != c {
            assert(g1.chunks()[c2] == g0.chunks()[c2]);
        }
    }
    assert forall|m2: Seq<char>| g1.has_module(m2) implies #[trigger] g1.cgm(m2).entry_in_chunks == g0.cgm(m2).entry_in_chunks by {
        if m2 != m {
            lemma_module_index_distinct(g0, m, m2);
        }
    }
}

/// Making a module an entry module of a chunk, or no longer one, leaves
/// the chunk–module side in step.
pub proof fn law_entry_ops_keep_mirrored(g0: ChunkGraph, g1: ChunkGraph, c: ChunkUkey, m: Seq<char>, entrypoint: u64)
    requires
        g0.wf(),
        mirrored(g0),
        g0.chunks().contains_key(c),
        g0.has_module(m),
        connected_entry(g0, g1, c, m, entrypoint) || disconnected_entry(g0, g1, c, m),
    ensures
        mirrored(g1),
{
    assert(g1.module_ids() == g0.module_ids());
    lemma_module_index_in_range(g0, m);
    assert forall|c2: ChunkUkey| #[trigger] g1.chunks().contains_key(c2) implies g1.chunks()[c2].modules == g0.chunks()[c2].modules && g0.chunks().contains_key(c2) by {
        if c2 != c {
            assert(g1.chunks()[c2] == g0.chunks()[c2]);
        }
    }
    assert forall|m2: Seq<char>| g1.has_module(m2) implies #[trigger] g1.cgm(m2).chunks == g0.cgm(m2).chunks by {
        if m2 != m {
            lemma_module_index_distinct(g0, m, m2);
        }
    }
}


/// Connecting a chunk and a module it did not hold, then disconnecting
/// them, gives both sides back as they were.
pub proof fn law_connect_then_disconnect(g0: ChunkGraph, g1: ChunkGraph, g2: ChunkGraph, c: ChunkUkey, m: Seq<char>)
    requires
        g0.wf(),
        g0.chunks().contains_key(c),
        g0.has_module(m),
        !id_set(g0.chunks()[c].modules@).contains(m),
        !g0.cgm(m).chunks@.contains(c),
        connected_module(g0, g1, c, m),
        disconnected_module(g1, g2, c, m),
    ensures
        g2.chunks().dom() == g0.chunks().dom(),
        forall|c2: ChunkUkey| #[trigger] g0.chunks().contains_key(c2) ==> id_set(g2.chunks()[c2].modules@) == id_set(g0.chunks()[c2].modules@),
        g2.cgm(m).chunks@.to_set() == g0.cgm(m).chunks@.to_set(),
        forall|m2: Seq<char>| g0.has_module(m2) && m2 != m ==> #[trigger] g2.cgm(m2) == g0.cgm(m2),
{
    assert(g1.module_ids() == g0.module_ids());
    assert(g2.module_ids() == g0.module_ids());
    lemma_module_index_in_range(g0, m);
    assert(g0.chunks().dom().contains(c));
    assert(g2.chunks().dom() =~= g0.chunks().dom());
    assert(id_set(g2.chunks()[c].modules@) =~= id_set(g0.chunks()[c].modules@));
    assert(!g0.cgm(m).chunks@.to_set().contains(c));
    assert(g2.cgm(m).chunks@.to_set() =~= g0.cgm(m).chunks@.to_set());
    assert forall|m2: Seq<char>| g0.has_module(m2) && m2 != m implies #[trigger] g2.cgm(m2) == g0.cgm(m2) by {
        lemma_module_index_distinct(g0, m, m2);
    }
}

} // verus!
