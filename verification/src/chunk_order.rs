//! The order in which chunks are compared: by module count, then by their
//! modules' identifiers, case-insensitively, in sorted order.

use crate::chunk::{Chunk, ChunkUkey};
use crate::chunk_graph::ChunkGraph;
use crate::chunk_modules::{derefs, lookup_module};
use crate::module_graph::{Module, ModuleGraph};
use crate::comparators::{
    compare_modules_by_identifier, compare_modules_by_identifier_iter, flipped, id_seqs_order,
    ids_order, lemma_lex_le_total, lemma_lex_le_transitive, lemma_lex_order_flip, lex_le, lex_order,
    spec_to_lowercase, Identifier,
};
use itertools::Itertools;
use std::cmp::Ordering;
use vstd::prelude::*;
use vstd::std_specs::iter::IteratorSpec;

verus! {

broadcast use vstd::seq_lib::group_to_multiset_ensures, vstd::multiset::group_multiset_axioms;

/// Calls itertools' `sorted_by` with `compare_modules_by_identifier` (it
/// collects the items and sorts them with std's stable `sort_by`). The
/// contract claims what a sort by a total preorder gives: the same
/// identifiers, none placed after one that compares smaller.
#[verifier::external_body]
fn sorted_by_identifier(v: Vec<Identifier>) -> (r: Vec<Identifier>)
    ensures
        r@.to_multiset() == v@.to_multiset(),
        forall|i: int, j: int|
            0 <= i < j < r@.len() ==> ids_order(r@[i]@, r@[j]@) != Ordering::Greater,
{
    v.into_iter().sorted_by(compare_modules_by_identifier).collect()
}

/// The lowercase forms of a sequence of identifiers.
pub open spec fn lowered(s: Seq<Identifier>) -> Seq<Seq<char>> {
    s.map_values(|x: Identifier| spec_to_lowercase(x@))
}

/// The lowercase forms of a sequence of identifiers, sorted.
pub open spec fn lowered_sorted(s: Seq<Identifier>) -> Seq<Seq<char>> {
    lowered(s).sort_by(|a: Seq<char>, b: Seq<char>| lex_le(a, b))
}

/// Element-by-element order of two sequences of strings, the first
/// difference deciding; a proper prefix comes first.
pub open spec fn lex_seqs_order(a: Seq<Seq<char>>, b: Seq<Seq<char>>) -> Ordering
    decreases a.len(),
{
    if a.len() == 0 {
        if b.len() == 0 {
            Ordering::Equal
        } else {
            Ordering::Less
        }
    } else if b.len() == 0 {
        Ordering::Greater
    } else if lex_order(a[0], b[0]) != Ordering::Equal {
        lex_order(a[0], b[0])
    } else {
        lex_seqs_order(a.drop_first(), b.drop_first())
    }
}

/// The order of two chunks with the given modules: more modules come later;
/// with as many, their sorted lowercase identifiers decide.
pub open spec fn chunks_order(a: Seq<Identifier>, b: Seq<Identifier>) -> Ordering {
    if a.len() > b.len() {
        Ordering::Greater
    } else if b.len() > a.len() {
        Ordering::Less
    } else {
        lex_seqs_order(lowered_sorted(a), lowered_sorted(b))
    }
}


/// Swapping two sequences of strings flips their order.
proof fn lemma_lex_seqs_flip(a: Seq<Seq<char>>, b: Seq<Seq<char>>)
    ensures
        lex_seqs_order(b, a) == flipped(lex_seqs_order(a, b)),
    decreases a.len(),
{
    if a.len() > 0 && b.len() > 0 {
        lemma_lex_order_flip(a[0], b[0]);
        if lex_order(a[0], b[0]) == Ordering::Equal {
            lemma_lex_seqs_flip(a.drop_first(), b.drop_first());
        }
    }
}

/// The order of sequences of strings is transitive.
proof fn lemma_lex_seqs_transitive(a: Seq<Seq<char>>, b: Seq<Seq<char>>, c: Seq<Seq<char>>)
    requires
        lex_seqs_order(a, b) != Ordering::Greater,
        lex_seqs_order(b, c) != Ordering::Greater,
    ensures
        lex_seqs_order(a, c) != Ordering::Greater,
    decreases a.len(),
{
    if a.len() > 0 && b.len() > 0 && c.len() > 0 {
        lemma_lex_order_flip(a[0], b[0]);
        lemma_lex_order_flip(b[0], c[0]);
        lemma_lex_order_flip(a[0], c[0]);
        lemma_lex_le_transitive(a[0], b[0], c[0]);
        if lex_order(a[0], b[0]) == Ordering::Equal && lex_order(b[0], c[0]) == Ordering::Equal {
            lemma_lex_seqs_transitive(a.drop_first(), b.drop_first(), c.drop_first());
        } else if a[0] == c[0] {
            lemma_lex_le_transitive(b[0], c[0], a[0]);
            lemma_lex_order_flip(c[0], b[0]);
        }
    }
}

/// Comparing chunks is antisymmetric: swapping two chunks' modules flips
/// the outcome.
pub proof fn law_compare_chunks_antisymmetric(a: Seq<Identifier>, b: Seq<Identifier>)
    ensures
        chunks_order(b, a) == flipped(chunks_order(a, b)),
{
    lemma_lex_seqs_flip(lowered_sorted(a), lowered_sorted(b));
}

/// Comparing chunks is transitive: a chunk not after a second, which is not
/// after a third, is not after the third. With antisymmetry, chunks are
/// compared by a total preorder, so that sorting by it is well defined.
pub proof fn law_compare_chunks_transitive(a: Seq<Identifier>, b: Seq<Identifier>, c: Seq<Identifier>)
    requires
        chunks_order(a, b) != Ordering::Greater,
        chunks_order(b, c) != Ordering::Greater,
    ensures
        chunks_order(a, c) != Ordering::Greater,
{
    if a.len() == b.len() && b.len() == c.len() {
        lemma_lex_seqs_transitive(lowered_sorted(a), lowered_sorted(b), lowered_sorted(c));
    }
}

/// Comparing identifiers element by element is comparing their lowercase forms.
proof fn lemma_id_seqs_order_lowered(a: Seq<Identifier>, b: Seq<Identifier>)
    ensures
        id_seqs_order(a, b) == lex_seqs_order(lowered(a), lowered(b)),
    decreases a.len(),
{
    if a.len() > 0 && b.len() > 0 {
        assert(lowered(a).drop_first() =~= lowered(a.drop_first()));
        assert(lowered(b).drop_first() =~= lowered(b.drop_first()));
        lemma_id_seqs_order_lowered(a.drop_first(), b.drop_first());
    }
}

/// Mapping keeps two sequences with the same elements having the same elements.
proof fn lemma_map_multiset<A, B>(a: Seq<A>, b: Seq<A>, f: spec_fn(A) -> B)
    requires
        a.to_multiset() == b.to_multiset(),
    ensures
        a.map_values(f).to_multiset() == b.map_values(f).to_multiset(),
    decreases a.len(),
{
    if a.len() == 0 {
        assert(a.to_multiset().len() == a.len());
        assert(b.to_multiset().len() == b.len());
        assert(b.len() == 0);
        assert(a.map_values(f) =~= b.map_values(f));
    } else {
        let x = a[0];
        assert(a.to_multiset().contains(x));
        assert(b.to_multiset().contains(x));
        let k = choose|k: int| 0 <= k < b.len() && b[k] == x;
        assert(a.remove(0).to_multiset() == a.to_multiset().remove(x));
        assert(b.remove(k).to_multiset() == b.to_multiset().remove(x));
        lemma_map_multiset(a.remove(0), b.remove(k), f);
        let fa = a.map_values(f);
        let fb = b.map_values(f);
        assert(fa.remove(0) =~= a.remove(0).map_values(f));
        assert(fb.remove(k) =~= b.remove(k).map_values(f));
        assert(fa.remove(0).to_multiset() == fa.to_multiset().remove(f(x)));
        assert(fb.remove(k).to_multiset() == fb.to_multiset().remove(f(x)));
        assert(fa.to_multiset().contains(f(x)));
        assert(fb.to_multiset().contains(f(x)));
        assert(fa.to_multiset() =~= fa.to_multiset().remove(f(x)).insert(f(x)));
        assert(fb.to_multiset() =~= fb.to_multiset().remove(f(x)).insert(f(x)));
    }
}

/// A sorted rearrangement of identifiers has exactly the sorted lowercase forms.
proof fn lemma_sorted_lowered(r: Seq<Identifier>, v: Seq<Identifier>)
    requires
        r.to_multiset() == v.to_multiset(),
        forall|i: int, j: int|
            0 <= i < j < r.len() ==> ids_order(r[i]@, r[j]@) != Ordering::Greater,
    ensures
        lowered(r) == lowered_sorted(v),
{
    let leq = |a: Seq<char>, b: Seq<char>| lex_le(a, b);
    lemma_lex_le_total();
    lemma_map_multiset(r, v, |x: Identifier| spec_to_lowercase(x@));
    lowered(v).lemma_sort_by_ensures(leq);
    assert(vstd::relations::sorted_by(lowered(r), leq)) by {
        assert forall|i: int, j: int| 0 <= i < j < lowered(r).len() implies #[trigger] leq(
            lowered(r)[i],
            lowered(r)[j],
        ) by {
            assert(ids_order(r[i]@, r[j]@) != Ordering::Greater);
        }
    }
    vstd::seq_lib::lemma_sorted_unique(lowered(r), lowered_sorted(v), leq);
}

/// Calls std's `sort_unstable_by_key` on the modules with each module's
/// identifier string as the key. The contract claims what such a sort gives:
/// the same modules, none placed after one whose identifier is smaller in
/// `str` order (which is `lex_order`: UTF-8 byte order is code point order).
#[verifier::external_body]
fn sort_modules_by_identifier(v: &mut Vec<&Module>)
    ensures
        final(v)@.to_multiset() == old(v)@.to_multiset(),
        forall|i: int, j: int|
            0 <= i < j < final(v)@.len() ==> lex_order(
                final(v)@[i].identifier@,
                final(v)@[j].identifier@,
            ) != Ordering::Greater,
{
    v.sort_unstable_by_key(|m| m.identifier().as_str());
}

impl ChunkGraph {
    /// The modules of a chunk that the module graph has, ordered by identifier.
    pub fn get_ordered_chunk_modules<'module>(
        &self,
        chunk: &ChunkUkey,
        module_graph: &'module ModuleGraph,
    ) -> (r: Vec<&'module Module>)
        requires
            self.chunks().contains_key(*chunk),
        ensures
            derefs(r@).to_multiset() == self.chunks()[*chunk].modules@.filter_map(
                lookup_module(*module_graph),
            ).to_multiset(),
            forall|i: int, j: int|
                0 <= i < j < r@.len() ==> lex_order(r@[i].identifier@, r@[j].identifier@)
                    != Ordering::Greater,
    {
        let mut modules = self.get_chunk_modules(chunk, module_graph);
        let ghost before = modules@;
        sort_modules_by_identifier(&mut modules);
        proof {
            lemma_map_multiset(modules@, before, |x: &Module| *x);
        }
        modules
    }

    /// Compares two chunks: the one with more modules is greater; with as
    /// many, their module identifiers, each list sorted case-insensitively,
    /// are compared pairwise case-insensitively.
    pub fn compare_chunks(&mut self, chunk_a: &Chunk, chunk_b: &Chunk) -> (r: Ordering)
        requires
            old(self).chunks().contains_key(chunk_a.ukey),
            old(self).chunks().contains_key(chunk_b.ukey),
        ensures
            *final(self) == *old(self),
            r == chunks_order(
                old(self).chunks()[chunk_a.ukey].modules@,
                old(self).chunks()[chunk_b.ukey].modules@,
            ),
    {
        let chunka_ukey: &ChunkUkey = &chunk_a.ukey;
        let chunkb_ukey: &ChunkUkey = &chunk_b.ukey;
        let cgca = self.get_chunk_graph_chunk(chunka_ukey);
        let cgcb = self.get_chunk_graph_chunk(chunkb_ukey);
        if cgca.modules.len() > cgcb.modules.len() {
            return Ordering::Greater;
        }
        if cgcb.modules.len() > cgca.modules.len() {
            return Ordering::Less;
        }
        let sorted_a = sorted_by_identifier(cgca.modules.clone());
        let sorted_b = sorted_by_identifier(cgcb.modules.clone());
        proof {
            lemma_sorted_lowered(sorted_a@, cgca.modules@);
            lemma_sorted_lowered(sorted_b@, cgcb.modules@);
            lemma_id_seqs_order_lowered(sorted_a@, sorted_b@);
        }
        let mut sorted_cgca_modules_iter = sorted_a.into_iter();
        let mut sorted_cgcb_modules_iter = sorted_b.into_iter();
        compare_modules_by_identifier_iter(
            &mut sorted_cgca_modules_iter,
            &mut sorted_cgcb_modules_iter,
        )
    }
}

} // verus!
