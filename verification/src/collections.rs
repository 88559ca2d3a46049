//! Sets and insertion-ordered maps over identifiers and keys, kept in vectors
//! without repeated entries.

use crate::comparators::Identifier;
use vstd::prelude::*;

verus! {

/// The character sequences of a sequence of identifiers.
pub open spec fn ids_view(v: Seq<Identifier>) -> Seq<Seq<char>> {
    v.map_values(|s: Identifier| s@)
}

/// The identifiers of a vector, as a set of character sequences.
pub open spec fn id_set(v: Seq<Identifier>) -> Set<Seq<char>> {
    ids_view(v).to_set()
}

/// No identifier occurs twice.
pub open spec fn ids_unique(v: Seq<Identifier>) -> bool {
    ids_view(v).no_duplicates()
}

/// The keys of an insertion-ordered list of entries.
pub open spec fn entry_keys<V>(v: Seq<(Identifier, V)>) -> Seq<Seq<char>> {
    v.map_values(|p: (Identifier, V)| p.0@)
}

/// An insertion-ordered list of entries, as pairs of character sequences and values.
pub open spec fn entries_view<V>(v: Seq<(Identifier, V)>) -> Seq<(Seq<char>, V)> {
    v.map_values(|p: (Identifier, V)| (p.0@, p.1))
}

/// The predicate that holds of everything but `x`.
pub open spec fn all_but<A>(x: A) -> spec_fn(A) -> bool {
    |y: A| y != x
}

/// Position of the first identifier of `v` equal to `id`, if any.
pub fn find_identifier(v: &Vec<Identifier>, id: &Identifier) -> (r: Option<usize>)
    ensures
        match r {
            Some(i) => i < v@.len() && v@[i as int]@ == id@ && forall|j: int|
                0 <= j < i ==> #[trigger] v@[j]@ != id@,
            None => forall|j: int| 0 <= j < v@.len() ==> #[trigger] v@[j]@ != id@,
        },
{
    let mut i: usize = 0;
    while i < v.len()
        invariant
            i <= v@.len(),
            forall|j: int| 0 <= j < i ==> #[trigger] v@[j]@ != id@,
        decreases v@.len() - i,
    {
        if v[i] == *id {
            return Some(i);
        }
        i = i + 1;
    }
    None
}

/// Whether `id` occurs in `v`.
pub fn contains_identifier(v: &Vec<Identifier>, id: &Identifier) -> (r: bool)
    ensures
        r == ids_view(v@).contains(id@),
{
    let f = find_identifier(v, id);
    match f {
        Some(i) => {
            assert(ids_view(v@)[i as int] == id@);
            true
        },
        None => {
            assert forall|j: int| 0 <= j < ids_view(v@).len() implies ids_view(v@)[j] != id@ by {
                assert(v@[j]@ != id@);
            }
            false
        },
    }
}

/// Adds `id` at the end of `v` unless it is already there.
pub fn insert_identifier(v: &mut Vec<Identifier>, id: Identifier)
    requires
        ids_unique(old(v)@),
    ensures
        ids_unique(final(v)@),
        ids_view(old(v)@).contains(id@) ==> final(v)@ == old(v)@,
        !ids_view(old(v)@).contains(id@) ==> final(v)@ == old(v)@.push(id),
        id_set(final(v)@) == id_set(old(v)@).insert(id@),
{
    if !contains_identifier(v, &id) {
        let ghost old_v = v@;
        v.push(id);
        proof {
            assert(ids_view(v@) =~= ids_view(old_v).push(id@));
            ids_view(old_v).lemma_push_to_set_commute(id@);
        }
    } else {
        proof {
            assert(id_set(v@) =~= id_set(v@).insert(id@));
        }
    }
}

/// Removes `id` from `v`, keeping the order of the others.
pub fn remove_identifier(v: &mut Vec<Identifier>, id: &Identifier)
    requires
        ids_unique(old(v)@),
    ensures
        ids_unique(final(v)@),
        ids_view(final(v)@) == ids_view(old(v)@).filter(all_but(id@)),
        id_set(final(v)@) == id_set(old(v)@).remove(id@),
        !ids_view(old(v)@).contains(id@) ==> final(v)@ == old(v)@,
{
    let ghost old_v = v@;
    let f = find_identifier(v, id);
    match f {
        Some(i) => {
            v.remove(i);
            proof {
                let ov = ids_view(old_v);
                assert(ids_view(v@) =~= ov.remove(i as int));
                lemma_remove_unique_is_filter(ov, i as int);
                assert(ids_view(v@).no_duplicates()) by {
                    assert forall|a: int, b: int|
                        0 <= a < ids_view(v@).len() && 0 <= b < ids_view(v@).len() && a != b
                        implies ids_view(v@)[a] != ids_view(v@)[b] by {
                        let oa = if a < i { a } else { a + 1 };
                        let ob = if b < i { b } else { b + 1 };
                        assert(ids_view(v@)[a] == ov[oa]);
                        assert(ids_view(v@)[b] == ov[ob]);
                    }
                }
                assert(id_set(v@) =~= id_set(old_v).remove(id@)) by {
                    assert forall|s: Seq<char>| id_set(v@).contains(s) <==> id_set(old_v).remove(
                        id@,
                    ).contains(s) by {
                        if id_set(v@).contains(s) {
                            let k = choose|k: int| 0 <= k < ids_view(v@).len() && ids_view(v@)[k] == s;
                            let ok = if k < i { k } else { k + 1 };
                            assert(ov[ok] == s);
                        }
                        if id_set(old_v).remove(id@).contains(s) {
                            let k = choose|k: int| 0 <= k < ov.len() && ov[k] == s;
                            assert(k != i);
                            let nk = if k < i { k } else { k - 1 };
                            assert(ids_view(v@)[nk] == s);
                        }
                    }
                }
            }
        },
        None => {
            proof {
                let ov = ids_view(old_v);
                assert(!ov.contains(id@)) by {
                    assert forall|j: int| 0 <= j < ov.len() implies ov[j] != id@ by {
                        assert(old_v[j]@ != id@);
                    }
                }
                lemma_filter_absent(ov, id@);
                assert(id_set(old_v) =~= id_set(old_v).remove(id@));
            }
        },
    }
}

/// Filtering out an element that does not occur changes nothing.
pub proof fn lemma_filter_absent<A>(s: Seq<A>, x: A)
    requires
        !s.contains(x),
    ensures
        s.filter(all_but(x)) == s,
    decreases s.len(),
{
    if s.len() > 0 {
        assert(!s.drop_last().contains(x)) by {
            if s.drop_last().contains(x) {
                let k = choose|k: int| 0 <= k < s.drop_last().len() && s.drop_last()[k] == x;
                assert(s[k] == x);
            }
        }
        lemma_filter_absent(s.drop_last(), x);
        assert(s.last() != x) by {
            assert(s[s.len() - 1] == s.last());
        }
        reveal_with_fuel(Seq::filter, 1);
        assert(s =~= s.drop_last().push(s.last()));
    }
}

/// Removing the single occurrence of an element is filtering it out.
pub proof fn lemma_remove_unique_is_filter<A>(s: Seq<A>, i: int)
    requires
        s.no_duplicates(),
        0 <= i < s.len(),
    ensures
        s.remove(i) == s.filter(all_but(s[i])),
    decreases s.len(),
{
    let x = s[i];
    reveal_with_fuel(Seq::filter, 1);
    assert(s =~= s.drop_last().push(s.last()));
    if i == s.len() - 1 {
        assert(!s.drop_last().contains(x)) by {
            if s.drop_last().contains(x) {
                let k = choose|k: int| 0 <= k < s.drop_last().len() && s.drop_last()[k] == x;
                assert(s[k] == x);
            }
        }
        lemma_filter_absent(s.drop_last(), x);
        assert(s.remove(i) =~= s.drop_last());
    } else {
        assert(s.drop_last().no_duplicates());
        assert(s.drop_last()[i] == x);
        lemma_remove_unique_is_filter(s.drop_last(), i);
        assert(s.last() != x);
        assert(s.remove(i) =~= s.drop_last().remove(i).push(s.last()));
    }
}

/// Whether `k` occurs in `v`.
pub fn contains_key(v: &Vec<u64>, k: u64) -> (r: bool)
    ensures
        r == v@.contains(k),
{
    let mut i: usize = 0;
    while i < v.len()
        invariant
            i <= v@.len(),
            forall|j: int| 0 <= j < i ==> v@[j] != k,
        decreases v@.len() - i,
    {
        if v[i] == k {
            return true;
        }
        i = i + 1;
    }
    false
}

/// Adds `k` at the end of `v` unless it is already there.
pub fn insert_key(v: &mut Vec<u64>, k: u64)
    requires
        old(v)@.no_duplicates(),
    ensures
        final(v)@.no_duplicates(),
        old(v)@.contains(k) ==> final(v)@ == old(v)@,
        !old(v)@.contains(k) ==> final(v)@ == old(v)@.push(k),
        final(v)@.to_set() == old(v)@.to_set().insert(k),
{
    if !contains_key(v, k) {
        let ghost old_v = v@;
        v.push(k);
        proof {
            old_v.lemma_push_to_set_commute(k);
        }
    } else {
        proof {
            assert(v@.to_set() =~= v@.to_set().insert(k));
        }
    }
}

/// Removes `k` from `v`, keeping the order of the others.
pub fn remove_key(v: &mut Vec<u64>, k: u64)
    requires
        old(v)@.no_duplicates(),
    ensures
        final(v)@.no_duplicates(),
        final(v)@ == old(v)@.filter(all_but(k)),
        final(v)@.to_set() == old(v)@.to_set().remove(k),
{
    let ghost old_v = v@;
    let mut i: usize = 0;
    while i < v.len()
        invariant
            v@ == old_v,
            old_v == old(v)@,
            old_v.no_duplicates(),
            i <= v@.len(),
            forall|j: int| 0 <= j < i ==> v@[j] != k,
        decreases v@.len() - i,
    {
        if v[i] == k {
            v.remove(i);
            proof {
                lemma_remove_unique_is_filter(old_v, i as int);
                assert(v@ =~= old_v.remove(i as int));
                assert(v@.no_duplicates()) by {
                    assert forall|a: int, b: int|
                        0 <= a < v@.len() && 0 <= b < v@.len() && a != b implies v@[a] != v@[b] by {
                        let oa = if a < i { a } else { a + 1 };
                        let ob = if b < i { b } else { b + 1 };
                        assert(v@[a] == old_v[oa]);
                        assert(v@[b] == old_v[ob]);
                    }
                }
                assert(v@.to_set() =~= old_v.to_set().remove(k)) by {
                    assert forall|s: u64| v@.to_set().contains(s) <==> old_v.to_set().remove(
                        k,
                    ).contains(s) by {
                        if v@.to_set().contains(s) {
                            let q = choose|q: int| 0 <= q < v@.len() && v@[q] == s;
                            let oq = if q < i { q } else { q + 1 };
                            assert(old_v[oq] == s);
                        }
                        if old_v.to_set().remove(k).contains(s) {
                            let q = choose|q: int| 0 <= q < old_v.len() && old_v[q] == s;
                            assert(q != i);
                            let nq = if q < i { q } else { q - 1 };
                            assert(v@[nq] == s);
                        }
                    }
                }
            }
            return;
        }
        i = i + 1;
    }
    proof {
        assert(!old_v.contains(k));
        lemma_filter_absent(old_v, k);
        assert(old_v.to_set() =~= old_v.to_set().remove(k));
    }
}

/// Adds each identifier of `other` to `v`, in order, unless already there.
pub fn extend_identifiers(v: &mut Vec<Identifier>, other: &Vec<Identifier>)
    requires
        ids_unique(old(v)@),
    ensures
        ids_unique(final(v)@),
        id_set(final(v)@) == id_set(old(v)@) + id_set(other@),
{
    let ghost v0 = v@;
    let mut i: usize = 0;
    proof {
        assert(id_set(other@.take(0)) =~= Set::<Seq<char>>::empty());
        assert(id_set(v0) + Set::<Seq<char>>::empty() =~= id_set(v0));
    }
    while i < other.len()
        invariant
            v0 == old(v)@,
            i <= other@.len(),
            ids_unique(v@),
            id_set(v@) == id_set(v0) + id_set(other@.take(i as int)),
        decreases other@.len() - i,
    {
        insert_identifier(v, other[i].clone());
        proof {
            assert(other@.take(i + 1) =~= other@.take(i as int).push(other@[i as int]));
            assert(ids_view(other@.take(i + 1)) =~= ids_view(other@.take(i as int)).push(
                other@[i as int]@,
            ));
            ids_view(other@.take(i as int)).lemma_push_to_set_commute(other@[i as int]@);
        }
        i = i + 1;
    }
    proof {
        assert(other@.take(other@.len() as int) =~= other@);
    }
}

/// Entries whose key is not `k`.
pub open spec fn key_not<V>(k: Seq<char>) -> spec_fn((Seq<char>, V)) -> bool {
    |p: (Seq<char>, V)| p.0 != k
}

/// Filtering by a predicate that holds of every element changes nothing.
pub proof fn lemma_filter_all<A>(s: Seq<A>, p: spec_fn(A) -> bool)
    requires
        forall|j: int| 0 <= j < s.len() ==> p(#[trigger] s[j]),
    ensures
        s.filter(p) == s,
    decreases s.len(),
{
    reveal_with_fuel(Seq::filter, 1);
    if s.len() > 0 {
        assert forall|j: int| 0 <= j < s.drop_last().len() implies p(#[trigger] s.drop_last()[j]) by {
            assert(s.drop_last()[j] == s[j]);
        }
        lemma_filter_all(s.drop_last(), p);
        assert(p(s[s.len() - 1]));
        assert(s =~= s.drop_last().push(s.last()));
    }
}

/// Filtering by a predicate that fails at exactly one position removes that position.
pub proof fn lemma_filter_one<A>(s: Seq<A>, i: int, p: spec_fn(A) -> bool)
    requires
        0 <= i < s.len(),
        !p(s[i]),
        forall|j: int| 0 <= j < s.len() && j != i ==> p(#[trigger] s[j]),
    ensures
        s.filter(p) == s.remove(i),
    decreases s.len(),
{
    reveal_with_fuel(Seq::filter, 1);
    assert(s =~= s.drop_last().push(s.last()));
    if i == s.len() - 1 {
        assert forall|j: int| 0 <= j < s.drop_last().len() implies p(#[trigger] s.drop_last()[j]) by {
            assert(s.drop_last()[j] == s[j]);
        }
        lemma_filter_all(s.drop_last(), p);
        assert(s.remove(i) =~= s.drop_last());
    } else {
        assert forall|j: int| 0 <= j < s.drop_last().len() && j != i implies p(
            #[trigger] s.drop_last()[j],
        ) by {
            assert(s.drop_last()[j] == s[j]);
        }
        assert(s.drop_last()[i] == s[i]);
        lemma_filter_one(s.drop_last(), i, p);
        assert(p(s[s.len() - 1]));
        assert(s.remove(i) =~= s.drop_last().remove(i).push(s.last()));
    }
}

/// Position of the entry whose key is `k`, if any.
pub fn find_entry<V>(v: &Vec<(Identifier, V)>, k: &Identifier) -> (r: Option<usize>)
    ensures
        match r {
            Some(i) => i < v@.len() && v@[i as int].0@ == k@ && forall|j: int|
                0 <= j < i ==> #[trigger] v@[j].0@ != k@,
            None => forall|j: int| 0 <= j < v@.len() ==> #[trigger] v@[j].0@ != k@,
        },
{
    let mut i: usize = 0;
    while i < v.len()
        invariant
            i <= v@.len(),
            forall|j: int| 0 <= j < i ==> #[trigger] v@[j].0@ != k@,
        decreases v@.len() - i,
    {
        if v[i].0 == *k {
            return Some(i);
        }
        i = i + 1;
    }
    None
}

/// Removes the entry whose key is `k`, keeping the order of the others.
pub fn remove_entry<V>(v: &mut Vec<(Identifier, V)>, k: &Identifier)
    requires
        entry_keys(old(v)@).no_duplicates(),
    ensures
        entry_keys(final(v)@).no_duplicates(),
        entries_view(final(v)@) == entries_view(old(v)@).filter(key_not(k@)),
{
    let ghost ov = entries_view(v@);
    let ghost ok = entry_keys(v@);
    match find_entry(v, k) {
        Some(i) => {
            v.remove(i);
            proof {
                assert forall|j: int| 0 <= j < ov.len() && j != i implies key_not::<V>(k@)(
                    #[trigger] ov[j],
                ) by {
                    assert(ok[j] != ok[i as int]);
                }
                lemma_filter_one(ov, i as int, key_not::<V>(k@));
                assert(entries_view(v@) =~= ov.remove(i as int));
                assert(entry_keys(v@) =~= ok.remove(i as int));
                assert(entry_keys(v@).no_duplicates()) by {
                    assert forall|a: int, b: int|
                        0 <= a < entry_keys(v@).len() && 0 <= b < entry_keys(v@).len() && a != b
                        implies entry_keys(v@)[a] != entry_keys(v@)[b] by {
                        let oa = if a < i { a } else { a + 1 };
                        let ob = if b < i { b } else { b + 1 };
                        assert(entry_keys(v@)[a] == ok[oa]);
                        assert(entry_keys(v@)[b] == ok[ob]);
                    }
                }
            }
        },
        None => {
            proof {
                assert forall|j: int| 0 <= j < ov.len() implies key_not::<V>(k@)(
                    #[trigger] ov[j],
                ) by {
                    assert(v@[j].0@ != k@);
                }
                lemma_filter_all(ov, key_not::<V>(k@));
            }
        },
    }
}

/// Puts the entry `(k, val)` at the end, removing an earlier entry with key `k`.
pub fn insert_entry<V>(v: &mut Vec<(Identifier, V)>, k: Identifier, val: V)
    requires
        entry_keys(old(v)@).no_duplicates(),
    ensures
        entry_keys(final(v)@).no_duplicates(),
        entries_view(final(v)@) == entries_view(old(v)@).filter(key_not(k@)).push((k@, val)),
{
    remove_entry(v, &k);
    let ghost mid = v@;
    proof {
        let f = entries_view(mid);
        assert forall|j: int| 0 <= j < entry_keys(mid).len() implies entry_keys(mid)[j] != k@ by {
            assert(f.contains(f[j]));
            assert(key_not::<V>(k@)(f[j])) by {
                assert(f[j] == entries_view(old(v)@).filter(key_not(k@))[j]);
                entries_view(old(v)@).lemma_filter_pred(key_not::<V>(k@), j);
            }
        }
    }
    v.push((k, val));
    proof {
        assert(entries_view(v@) =~= entries_view(mid).push((k@, val)));
        assert(entry_keys(v@) =~= entry_keys(mid).push(k@));
    }
}

} // verus!
