//! A set of chunk combinations that hands out the best one first. Items are
//! kept unsorted until the first is asked for; then they are put into
//! buckets by a key of the layer (size saved, then merged size, then the
//! distance of the two chunks), and the best bucket is asked in turn. At the
//! last layer, 3, the buckets are plain sets, ordered by the second chunk's
//! position. Layers 0 to 2 have a key; layer 3 has none, so a set of layer
//! 3 cannot sort unsorted items or order several buckets: `pop_ok` says
//! when handing out works.

use crate::chunk_combination::{ChunkCombination, ChunkCombinationUkey};
use crate::collections::{all_but, contains_key, insert_key, lemma_filter_absent, remove_key};
use crate::database::Database;
use crate::finish_update::finish_nothing;
pub use crate::finish_update::FinishUpdateFuncs;
use itertools::Itertools;
use std::cmp::Ordering;
use vstd::prelude::*;

verus! {

broadcast use vstd::seq_lib::group_to_multiset_ensures, vstd::multiset::group_multiset_axioms;

/// A bucket of a layer: a plain set at the last layer, a set of the next
/// layer before it.
pub enum BucketMapVariant {
    HashSetVariant(Vec<ChunkCombinationUkey>),
    LazyBucketVariant(LazyBucketSortedSet),
}

/// A set of chunk combinations that hands out the best one first.
pub struct LazyBucketSortedSet {
    layer: u32,
    /// The keys of the buckets, each once.
    keys: Vec<u64>,
    /// The buckets, by key.
    map: Vec<(u64, BucketMapVariant)>,
    /// Items not put into a bucket yet, each once.
    unsorted_items: Vec<ChunkCombinationUkey>,
    size: u32,
}

/// A bucket, seen as a value.
pub enum EntryView {
    Leaf(Set<u64>),
    Node(NodeView),
}

/// A bucket sorted set, seen as a value: its layer, its size, the items not
/// put into a bucket yet (in the order they came), and the buckets.
pub struct NodeView {
    pub layer: u32,
    pub size: u32,
    pub unsorted: Seq<u64>,
    pub buckets: Seq<(u64, EntryView)>,
}

/// The items of a bucket.
pub open spec fn entry_items(e: EntryView) -> Set<u64>
    decreases e,
{
    match e {
        EntryView::Leaf(h) => h,
        EntryView::Node(n) => node_items(n),
    }
}

/// The items of a list of buckets.
pub open spec fn buckets_items(b: Seq<(u64, EntryView)>) -> Set<u64>
    decreases b,
{
    if b.len() == 0 {
        Set::empty()
    } else {
        buckets_items(b.drop_last()) + entry_items(b.last().1)
    }
}

/// Every item of a bucket sorted set, sorted or not.
pub open spec fn node_items(n: NodeView) -> Set<u64>
    decreases n,
{
    n.unsorted.to_set() + buckets_items(n.buckets)
}

/// The view of a bucket.
pub closed spec fn variant_view(v: BucketMapVariant) -> EntryView
    decreases v,
{
    match v {
        BucketMapVariant::HashSetVariant(h) => EntryView::Leaf(h@.to_set()),
        BucketMapVariant::LazyBucketVariant(s) => EntryView::Node(set_view(s)),
    }
}

/// The view of a list of keyed buckets.
pub closed spec fn map_view(m: Seq<(u64, BucketMapVariant)>) -> Seq<(u64, EntryView)>
    decreases m,
{
    if m.len() == 0 {
        Seq::empty()
    } else {
        map_view(m.drop_last()).push((m.last().0, variant_view(m.last().1)))
    }
}

/// The view of a bucket sorted set.
pub closed spec fn set_view(s: LazyBucketSortedSet) -> NodeView
    decreases s,
{
    NodeView { layer: s.layer, size: s.size, unsorted: s.unsorted_items@, buckets: map_view(s.map@) }
}

impl View for LazyBucketSortedSet {
    type V = NodeView;

    closed spec fn view(&self) -> NodeView {
        set_view(*self)
    }
}


/// `x` added to a list that holds each item once.
pub open spec fn seq_insert(s: Seq<u64>, x: u64) -> Seq<u64> {
    if s.contains(x) {
        s
    } else {
        s.push(x)
    }
}

/// An empty set of the given layer.
pub open spec fn empty_view(layer: u32) -> NodeView {
    NodeView { layer, size: 0, unsorted: Seq::empty(), buckets: Seq::empty() }
}

/// `item` added, unsorted: the size grows by one whether or not the item
/// was there.
pub open spec fn view_add(n: NodeView, item: u64) -> NodeView {
    NodeView { size: (n.size + 1) as u32, unsorted: seq_insert(n.unsorted, item), ..n }
}

/// The position of the first bucket with the given key, or -1.
pub open spec fn bucket_index(b: Seq<(u64, EntryView)>, key: u64) -> int
    decreases b.len(),
{
    if b.len() == 0 {
        -1
    } else if b[0].0 == key {
        0
    } else {
        let r = bucket_index(b.drop_first(), key);
        if r < 0 {
            -1
        } else {
            r + 1
        }
    }
}

/// The keys of a list of buckets.
pub open spec fn bucket_keys(b: Seq<(u64, EntryView)>) -> Seq<u64> {
    b.map_values(|e: (u64, EntryView)| e.0)
}

/// A bucket with `item` added.
pub open spec fn entry_insert(e: EntryView, item: u64) -> EntryView {
    match e {
        EntryView::Leaf(h) => EntryView::Leaf(h.insert(item)),
        EntryView::Node(n) => EntryView::Node(view_add(n, item)),
    }
}

/// A new bucket of a layer holding `item`: a plain set at layer 3, a set of
/// the next layer elsewhere.
pub open spec fn new_entry(layer: u32, item: u64) -> EntryView {
    if layer == 3 {
        EntryView::Leaf(set![item])
    } else {
        EntryView::Node(view_add(empty_view((layer + 1) as u32), item))
    }
}

/// `item` put into the bucket with `key`, which is made when there is none.
pub open spec fn view_add_internal(n: NodeView, key: u64, item: u64) -> NodeView {
    let i = bucket_index(n.buckets, key);
    if i >= 0 {
        NodeView { buckets: n.buckets.update(i, (key, entry_insert(n.buckets[i].1, item))), ..n }
    } else {
        NodeView { buckets: n.buckets.push((key, new_entry(n.layer, item))), ..n }
    }
}

/// The bucket with `key` dropped, if there is one.
pub open spec fn view_delete_key(n: NodeView, key: u64) -> NodeView {
    let i = bucket_index(n.buckets, key);
    if i >= 0 {
        NodeView { buckets: n.buckets.remove(i), ..n }
    } else {
        n
    }
}

/// The key of a combination at a layer: the size saved, the merged size, or
/// the distance of the two chunks.
pub open spec fn layer_key(layer: u32, c: ChunkCombination) -> u64 {
    if layer == 0 {
        c.size_diff
    } else if layer == 1 {
        c.integrated_size
    } else {
        (c.b_idx - c.a_idx) as u64
    }
}

/// Whether a layer has a key for a combination: layers 0 to 2 have one, the
/// last only when the second chunk does not come before the first.
pub open spec fn key_defined(layer: u32, c: ChunkCombination) -> bool {
    layer < 3 && (layer == 2 ==> c.a_idx <= c.b_idx)
}

/// Whether putting an item into the bucket with `key` stays within the
/// counters: an existing set of the next layer is not full, and a new one
/// has a layer number.
pub open spec fn add_internal_ok(n: NodeView, key: u64) -> bool {
    let i = bucket_index(n.buckets, key);
    if i >= 0 {
        match n.buckets[i].1 {
            EntryView::Leaf(_) => true,
            EntryView::Node(m) => m.size < u32::MAX,
        }
    } else {
        n.layer == 3 || n.layer < u32::MAX
    }
}

/// The items `items`, one after the other, put into the buckets by their key.
pub open spec fn process(n: NodeView, db: Map<u64, ChunkCombination>, items: Seq<u64>) -> NodeView
    decreases items.len(),
{
    if items.len() == 0 {
        n
    } else {
        view_add_internal(
            process(n, db, items.drop_last()),
            layer_key(n.layer, db[items.last()]),
            items.last(),
        )
    }
}

/// Whether putting `items` into the buckets by their key works: each is
/// stored, has a key at this layer, and fits.
pub open spec fn process_ok(n: NodeView, db: Map<u64, ChunkCombination>, items: Seq<u64>) -> bool
    decreases items.len(),
{
    items.len() == 0 || {
        &&& process_ok(n, db, items.drop_last())
        &&& db.contains_key(items.last())
        &&& key_defined(n.layer, db[items.last()])
        &&& add_internal_ok(process(n, db, items.drop_last()), layer_key(n.layer, db[items.last()]))
    }
}


/// `item` taken out: the size shrinks by one; an unsorted item leaves the
/// unsorted items, a sorted one leaves the bucket of its key, and a bucket
/// left empty is dropped.
pub open spec fn view_delete(n: NodeView, item: u64, db: Map<u64, ChunkCombination>) -> NodeView
    decreases u32::MAX - n.layer,
{
    let n1 = NodeView { size: (n.size - 1) as u32, ..n };
    if n.unsorted.contains(item) {
        NodeView { unsorted: n.unsorted.filter(all_but(item)), ..n1 }
    } else {
        let key = layer_key(n.layer, db[item]);
        let i = bucket_index(n.buckets, key);
        match n.buckets[i].1 {
            EntryView::Leaf(h) => {
                let n2 = NodeView { buckets: n.buckets.update(i, (key, EntryView::Leaf(h.remove(item)))), ..n1 };
                if h.remove(item).len() == 0 {
                    view_delete_key(n2, key)
                } else {
                    n2
                }
            },
            EntryView::Node(m) => {
                if m.layer == n.layer + 1 {
                    let m2 = view_delete(m, item, db);
                    let n2 = NodeView { buckets: n.buckets.update(i, (key, EntryView::Node(m2))), ..n1 };
                    if m2.size == 0 {
                        view_delete_key(n2, key)
                    } else {
                        n2
                    }
                } else {
                    n1
                }
            },
        }
    }
}

/// Whether taking `item` out works: the set is not empty, and the item is
/// unsorted, or it is stored, has a key at this layer, its bucket is there,
/// and taking it out of that bucket works.
pub open spec fn delete_ok(n: NodeView, item: u64, db: Map<u64, ChunkCombination>) -> bool
    decreases u32::MAX - n.layer,
{
    n.size > 0 && (n.unsorted.contains(item) || {
        let key = layer_key(n.layer, db[item]);
        let i = bucket_index(n.buckets, key);
        &&& db.contains_key(item)
        &&& key_defined(n.layer, db[item])
        &&& i >= 0
        &&& match n.buckets[i].1 {
            EntryView::Leaf(_) => true,
            EntryView::Node(m) => m.layer == n.layer + 1 && delete_ok(m, item, db),
        }
    })
}


/// How a layer orders bucket keys: the larger size saved first at layer 0,
/// the smaller key first at the other layers.
pub open spec fn bucket_ordering(layer: u32, a: u64, b: u64) -> Ordering {
    if layer == 0 {
        if a > b {
            Ordering::Less
        } else if a == b {
            Ordering::Equal
        } else {
            Ordering::Greater
        }
    } else {
        if a > b {
            Ordering::Greater
        } else if a == b {
            Ordering::Equal
        } else {
            Ordering::Less
        }
    }
}

/// `k` is one of `keys` and comes before every other one.
pub open spec fn is_best_key(layer: u32, keys: Seq<u64>, k: u64) -> bool {
    &&& keys.contains(k)
    &&& forall|j: int| 0 <= j < keys.len() && keys[j] != k ==> bucket_ordering(layer, k, #[trigger] keys[j]) == Ordering::Less
}

/// The key that comes first among `keys`.
pub open spec fn best_key(layer: u32, keys: Seq<u64>) -> u64 {
    choose|k: u64| is_best_key(layer, keys, k)
}

/// The first key is unique.
pub proof fn lemma_best_key_unique(layer: u32, keys: Seq<u64>, k: u64)
    requires
        is_best_key(layer, keys, k),
    ensures
        best_key(layer, keys) == k,
{
    let b = best_key(layer, keys);
    assert(is_best_key(layer, keys, b));
    if b != k {
        let i = choose|i: int| 0 <= i < keys.len() && keys[i] == b;
        let j = choose|j: int| 0 <= j < keys.len() && keys[j] == k;
        assert(bucket_ordering(layer, k, keys[i]) == Ordering::Less);
        assert(bucket_ordering(layer, b, keys[j]) == Ordering::Less);
    }
}

/// The set with its size one less.
pub open spec fn decremented(n: NodeView) -> NodeView {
    NodeView { size: (n.size - 1) as u32, ..n }
}

/// The set as `pop_first` has it before choosing a bucket: the size one
/// less, and every unsorted item put into the bucket of its key.
pub open spec fn sorted_view(n: NodeView, db: Map<u64, ChunkCombination>) -> NodeView {
    NodeView { unsorted: Seq::empty(), ..process(decremented(n), db, n.unsorted) }
}

/// Whether `pop_first` works on a set: it is empty; or its unsorted items
/// can be put into buckets, there is a bucket, the layer orders its keys
/// when there are several, and the first bucket is, at layer 3, a non-empty
/// plain set (of stored items, when there are several to order), or
/// elsewhere a set of the next layer that `pop_first` works on.
pub open spec fn pop_ok(n: NodeView, db: Map<u64, ChunkCombination>) -> bool
    decreases u32::MAX - n.layer,
{
    n.size == 0 || {
        let p = sorted_view(n, db);
        let keys = bucket_keys(p.buckets);
        let i = bucket_index(p.buckets, best_key(n.layer, keys));
        &&& process_ok(decremented(n), db, n.unsorted)
        &&& keys.len() > 0
        &&& (keys.len() >= 2 ==> n.layer < 3)
        &&& match p.buckets[i].1 {
            EntryView::Leaf(h) => n.layer == 3 && h.len() > 0 && (h.len() >= 2 ==> forall|x: u64|
                h.contains(x) ==> db.contains_key(x)),
            EntryView::Node(m) => n.layer != 3 && m.layer == n.layer + 1 && pop_ok(m, db),
        }
    }
}

/// What `pop_first` may give and leave: nothing from an empty set, which
/// stays as it is; otherwise, with the items sorted into buckets and the
/// size one less, from the first bucket: at layer 3, an item of the plain
/// set whose second chunk comes first, which leaves the set; elsewhere, what
/// the set of the next layer gives. A bucket left empty is dropped.
pub open spec fn pop_outcome(n: NodeView, db: Map<u64, ChunkCombination>, r: Option<u64>, w: NodeView) -> bool
    decreases u32::MAX - n.layer,
{
    if n.size == 0 {
        r is None && w == n
    } else {
        let p = sorted_view(n, db);
        let k = best_key(n.layer, bucket_keys(p.buckets));
        let i = bucket_index(p.buckets, k);
        match p.buckets[i].1 {
            EntryView::Leaf(h) => exists|x: u64| {
                &&& r == Some(x)
                &&& h.contains(x)
                &&& forall|y: u64| h.contains(y) ==> db[x].b_idx <= db[y].b_idx
                &&& w == if h.remove(x).len() == 0 {
                    view_delete_key(p, k)
                } else {
                    NodeView { buckets: p.buckets.update(i, (k, EntryView::Leaf(h.remove(x)))), ..p }
                }
            },
            EntryView::Node(m) => m.layer == n.layer + 1 && exists|m2: NodeView| #![trigger m2.size] {
                let p2 = NodeView { buckets: p.buckets.update(i, (k, EntryView::Node(m2))), ..p };
                &&& pop_outcome(m, db, r, m2)
                &&& w == if m2.size == 0 {
                    view_delete_key(p2, k)
                } else {
                    p2
                }
            },
        }
    }
}


/// `item` taken out of the unsorted items, with the size one less.
pub open spec fn view_finish_first(n: NodeView, item: u64) -> NodeView {
    NodeView { size: (n.size - 1) as u32, unsorted: n.unsorted.filter(all_but(item)), ..n }
}

/// What `start_update` does to a set: an unsorted item is taken out (see
/// `view_finish_first`); a sorted one is passed on to the set of the next
/// layer that holds its bucket, and nothing changes at the last layer.
pub open spec fn view_start_update(n: NodeView, item: u64, db: Map<u64, ChunkCombination>) -> NodeView
    decreases u32::MAX - n.layer,
{
    if n.unsorted.contains(item) {
        view_finish_first(n, item)
    } else {
        let key = layer_key(n.layer, db[item]);
        let i = bucket_index(n.buckets, key);
        match n.buckets[i].1 {
            EntryView::Leaf(_) => n,
            EntryView::Node(m) => if m.layer == n.layer + 1 {
                NodeView { buckets: n.buckets.update(i, (key, EntryView::Node(view_start_update(m, item, db)))), ..n }
            } else {
                n
            },
        }
    }
}

/// Whether `start_update` works: an unsorted item needs a non-empty set; a
/// sorted one must be stored, have a key at this layer, and have its bucket,
/// a plain set at the last layer or a set of the next layer where
/// `start_update` works.
pub open spec fn start_update_ok(n: NodeView, item: u64, db: Map<u64, ChunkCombination>) -> bool
    decreases u32::MAX - n.layer,
{
    if n.unsorted.contains(item) {
        n.size > 0
    } else {
        let key = layer_key(n.layer, db[item]);
        let i = bucket_index(n.buckets, key);
        &&& db.contains_key(item)
        &&& key_defined(n.layer, db[item])
        &&& i >= 0
        &&& match n.buckets[i].1 {
            EntryView::Leaf(_) => n.layer == 3,
            EntryView::Node(m) => n.layer != 3 && m.layer == n.layer + 1 && start_update_ok(m, item, db),
        }
    }
}


/// The layer after `layer`.
pub open spec fn next_layer(layer: u32) -> u32 {
    (layer + 1) as u32
}

/// Whether combination `a` ranks no later than `b` from a layer on: first
/// by the layer's key, in the layer's order; for equal keys, by the next
/// layers; at the last layer, by the position of the second chunk.
pub open spec fn ranks_no_later(layer: u32, a: ChunkCombination, b: ChunkCombination) -> bool
    decreases 3 - layer,
{
    if layer >= 3 {
        a.b_idx <= b.b_idx
    } else {
        let ka = layer_key(layer, a);
        let kb = layer_key(layer, b);
        bucket_ordering(layer, ka, kb) == Ordering::Less || (ka == kb && ranks_no_later(next_layer(layer), a, b))
    }
}

/// An item belongs to the bucket with `key` of a layer before the last: it
/// has a key at that layer, and it is `key`.
pub open spec fn keyed_at(layer: u32, db: Map<u64, ChunkCombination>, key: u64, y: u64) -> bool {
    &&& db.contains_key(y)
    &&& layer < 3 ==> key_defined(layer, db[y]) && layer_key(layer, db[y]) == key
}

/// Every item of a set is stored and stands in the bucket of its key, at
/// every layer but the last; the buckets of each layer have distinct keys.
pub open spec fn keyed(n: NodeView, db: Map<u64, ChunkCombination>) -> bool
    decreases u32::MAX - n.layer,
{
    &&& forall|i: int| 0 <= i < n.unsorted.len() ==> db.contains_key(#[trigger] n.unsorted[i])
    &&& bucket_keys(n.buckets).no_duplicates()
    &&& forall|i: int|
        #![trigger n.buckets[i]]
        0 <= i < n.buckets.len() ==> {
            &&& forall|y: u64| #[trigger] entry_items(n.buckets[i].1).contains(y) ==> keyed_at(n.layer, db, n.buckets[i].0, y)
            &&& match n.buckets[i].1 {
                EntryView::Leaf(_) => true,
                EntryView::Node(m) => m.layer == n.layer + 1 && keyed(m, db),
            }
        }
}

/// An item is in a list of buckets exactly when it is in one of them.
proof fn lemma_buckets_items(b: Seq<(u64, EntryView)>, y: u64)
    ensures
        buckets_items(b).contains(y) <==> exists|j: int| 0 <= j < b.len() && #[trigger] entry_items(b[j].1).contains(y),
    decreases b.len(),
{
    if b.len() > 0 {
        lemma_buckets_items(b.drop_last(), y);
        if buckets_items(b.drop_last()).contains(y) {
            let j = choose|j: int| 0 <= j < b.drop_last().len() && #[trigger] entry_items(b.drop_last()[j].1).contains(y);
            assert(b[j] == b.drop_last()[j]);
        }
        if exists|j: int| 0 <= j < b.len() && #[trigger] entry_items(b[j].1).contains(y) {
            let j = choose|j: int| 0 <= j < b.len() && #[trigger] entry_items(b[j].1).contains(y);
            if j < b.len() - 1 {
                assert(b.drop_last()[j] == b[j]);
            }
        }
        assert(b.last() == b[b.len() - 1]);
        if entry_items(b.last().1).contains(y) {
            assert(entry_items(b[b.len() - 1].1).contains(y));
        }
    }
}

/// Putting an item into a bucket adds it to the bucket's items.
proof fn lemma_entry_insert_items(e: EntryView, item: u64)
    ensures
        entry_items(entry_insert(e, item)) == entry_items(e).insert(item),
{
    match e {
        EntryView::Leaf(h) => {},
        EntryView::Node(m) => {
            assert(seq_insert(m.unsorted, item).to_set() =~= m.unsorted.to_set().insert(item)) by {
                if !m.unsorted.contains(item) {
                    m.unsorted.lemma_push_to_set_commute(item);
                } else {
                    assert(m.unsorted.to_set().contains(item));
                }
            }
            assert(node_items(view_add(m, item)) =~= node_items(m).insert(item));
        },
    }
}

/// The items of the buckets after one bucket is replaced.
proof fn lemma_buckets_items_update(b: Seq<(u64, EntryView)>, i: int, e: (u64, EntryView), y: u64)
    requires
        0 <= i < b.len(),
    ensures
        buckets_items(b.update(i, e)).contains(y) <==> entry_items(e.1).contains(y) || exists|j: int| 0 <= j < b.len() && j != i && #[trigger] entry_items(b[j].1).contains(y),
{
    lemma_buckets_items(b, y);
    lemma_buckets_items(b.update(i, e), y);
    if exists|j: int| 0 <= j < b.len() && j != i && #[trigger] entry_items(b[j].1).contains(y) {
        let j = choose|j: int| 0 <= j < b.len() && j != i && #[trigger] entry_items(b[j].1).contains(y);
        assert(b.update(i, e)[j] == b[j]);
    }
    if entry_items(e.1).contains(y) {
        assert(b.update(i, e)[i] == e);
    }
    if buckets_items(b.update(i, e)).contains(y) {
        let j = choose|j: int| 0 <= j < b.update(i, e).len() && #[trigger] entry_items(b.update(i, e)[j].1).contains(y);
        if j != i {
            assert(b.update(i, e)[j] == b[j]);
        }
    }
}

/// Putting an item into a bucket adds it to the items of the buckets.
proof fn lemma_add_internal_items(n: NodeView, key: u64, item: u64)
    ensures
        buckets_items(view_add_internal(n, key, item).buckets) == buckets_items(n.buckets).insert(item),
{
    let i = bucket_index(n.buckets, key);
    lemma_bucket_index(n.buckets, key);
    let b2 = view_add_internal(n, key, item).buckets;
    if i >= 0 {
        assert forall|y: u64| buckets_items(b2).contains(y) <==> buckets_items(n.buckets).insert(item).contains(y) by {
            lemma_buckets_items_update(n.buckets, i, (key, entry_insert(n.buckets[i].1, item)), y);
            lemma_buckets_items(n.buckets, y);
            lemma_entry_insert_items(n.buckets[i].1, item);
            if exists|j: int| 0 <= j < n.buckets.len() && #[trigger] entry_items(n.buckets[j].1).contains(y) {
                let j = choose|j: int| 0 <= j < n.buckets.len() && #[trigger] entry_items(n.buckets[j].1).contains(y);
                if j == i {
                    assert(entry_items(entry_insert(n.buckets[i].1, item)).contains(y));
                }
            }
        }
        assert(buckets_items(b2) =~= buckets_items(n.buckets).insert(item));
    } else {
        assert(b2.drop_last() =~= n.buckets);
        if n.layer == 3 {
            assert(entry_items(new_entry(n.layer, item)) =~= set![item]);
        } else {
            let m = view_add(empty_view((n.layer + 1) as u32), item);
            assert(m.unsorted =~= seq![item]);
            assert(m.unsorted.to_set() =~= set![item]) by {
                assert(m.unsorted[0] == item);
                assert(m.unsorted.contains(item));
            }
            assert(buckets_items(m.buckets) =~= Set::empty());
            assert(node_items(m) =~= set![item]);
            assert(entry_items(new_entry(n.layer, item)) =~= set![item]);
        }
        assert(b2.last() == (key, new_entry(n.layer, item)));
        assert(buckets_items(b2) == buckets_items(n.buckets) + entry_items(new_entry(n.layer, item)));
        assert(buckets_items(b2) =~= buckets_items(n.buckets).insert(item));
    }
}

/// Sorting items into buckets adds them to the items of the buckets and
/// keeps the rest of the set.
proof fn lemma_process_items(n: NodeView, db: Map<u64, ChunkCombination>, items: Seq<u64>)
    ensures
        buckets_items(process(n, db, items).buckets) == buckets_items(n.buckets) + items.to_set(),
    decreases items.len(),
{
    if items.len() == 0 {
        assert(items.to_set() =~= Set::empty());
        assert(buckets_items(n.buckets) + items.to_set() =~= buckets_items(n.buckets));
    } else {
        lemma_process_items(n, db, items.drop_last());
        lemma_add_internal_items(process(n, db, items.drop_last()), layer_key(n.layer, db[items.last()]), items.last());
        assert(items.drop_last().push(items.last()) =~= items);
        items.drop_last().lemma_push_to_set_commute(items.last());
        assert(buckets_items(process(n, db, items).buckets) =~= buckets_items(n.buckets) + items.to_set());
    }
}


/// A non-empty list of keys has a first key.
proof fn lemma_best_key_exists(layer: u32, keys: Seq<u64>)
    requires
        keys.len() > 0,
    ensures
        is_best_key(layer, keys, best_key(layer, keys)),
    decreases keys.len(),
{
    if keys.len() == 1 {
        assert(is_best_key(layer, keys, keys[0]));
    } else {
        let d = keys.drop_last();
        lemma_best_key_exists(layer, d);
        let b = best_key(layer, d);
        let l = keys.last();
        let c = if l == b || bucket_ordering(layer, b, l) == Ordering::Less {
            b
        } else {
            l
        };
        assert(d.contains(b));
        let t = choose|t: int| 0 <= t < d.len() && d[t] == b;
        assert(keys[t] == b);
        assert(keys[keys.len() - 1] == l);
        assert forall|j: int| 0 <= j < keys.len() && keys[j] != c implies bucket_ordering(layer, c, #[trigger] keys[j]) == Ordering::Less by {
            if j < keys.len() - 1 {
                assert(keys[j] == d[j]);
            }
        }
        assert(is_best_key(layer, keys, c));
    }
}

/// Keying does not look at the size.
proof fn lemma_keyed_decremented(n: NodeView, db: Map<u64, ChunkCombination>)
    requires
        keyed(n, db),
    ensures
        keyed(decremented(n), db),
{
}

/// An item added unsorted keeps a set keyed when it is stored.
proof fn lemma_keyed_view_add(m: NodeView, db: Map<u64, ChunkCombination>, item: u64)
    requires
        keyed(m, db),
        db.contains_key(item),
    ensures
        keyed(view_add(m, item), db),
{
    let u = seq_insert(m.unsorted, item);
    assert forall|i: int| 0 <= i < u.len() implies db.contains_key(#[trigger] u[i]) by {
        if i < m.unsorted.len() {
            assert(u[i] == m.unsorted[i]);
        }
    }
}

/// Putting an item into the bucket of its key keeps a set keyed.
proof fn lemma_add_internal_keyed(n: NodeView, db: Map<u64, ChunkCombination>, key: u64, item: u64)
    requires
        keyed(n, db),
        n.layer < 3,
        db.contains_key(item),
        key_defined(n.layer, db[item]),
        layer_key(n.layer, db[item]) == key,
    ensures
        keyed(view_add_internal(n, key, item), db),
{
    let b = n.buckets;
    let i = bucket_index(b, key);
    lemma_bucket_index(b, key);
    let w = view_add_internal(n, key, item);
    if i >= 0 {
        let e = (key, entry_insert(b[i].1, item));
        assert(bucket_keys(w.buckets) =~= bucket_keys(b));
        lemma_entry_insert_items(b[i].1, item);
        assert forall|j: int|
            #![trigger w.buckets[j]]
            0 <= j < w.buckets.len() implies {
                &&& forall|y: u64| #[trigger] entry_items(w.buckets[j].1).contains(y) ==> keyed_at(w.layer, db, w.buckets[j].0, y)
                &&& match w.buckets[j].1 {
                    EntryView::Leaf(_) => true,
                    EntryView::Node(m) => m.layer == w.layer + 1 && keyed(m, db),
                }
            } by {
            if j == i {
                assert(w.buckets[j] == e);
                assert(b[i].0 == key);
                match b[i].1 {
                    EntryView::Leaf(_) => {},
                    EntryView::Node(m) => {
                        lemma_keyed_view_add(m, db, item);
                    },
                }
            } else {
                assert(w.buckets[j] == b[j]);
            }
        }
    } else {
        let e = (key, new_entry(n.layer, item));
        assert(bucket_keys(w.buckets) =~= bucket_keys(b).push(key));
        assert(!bucket_keys(b).contains(key)) by {
            if bucket_keys(b).contains(key) {
                let t = choose|t: int| 0 <= t < bucket_keys(b).len() && bucket_keys(b)[t] == key;
                assert(b[t].0 == key);
            }
        }
        let m = view_add(empty_view((n.layer + 1) as u32), item);
        assert(m.unsorted =~= seq![item]);
        assert(m.unsorted[0] == item);
        assert(m.unsorted.to_set() =~= set![item]) by {
            assert(m.unsorted.contains(item));
        }
        assert(buckets_items(m.buckets) =~= Set::empty());
        assert(node_items(m) =~= set![item]);
        assert(keyed(m, db));
        assert forall|j: int|
            #![trigger w.buckets[j]]
            0 <= j < w.buckets.len() implies {
                &&& forall|y: u64| #[trigger] entry_items(w.buckets[j].1).contains(y) ==> keyed_at(w.layer, db, w.buckets[j].0, y)
                &&& match w.buckets[j].1 {
                    EntryView::Leaf(_) => true,
                    EntryView::Node(m) => m.layer == w.layer + 1 && keyed(m, db),
                }
            } by {
            if j == b.len() {
                assert(w.buckets[j] == e);
            } else {
                assert(w.buckets[j] == b[j]);
            }
        }
    }
}

/// Sorting items into buckets keeps a set keyed.
proof fn lemma_process_keyed(n: NodeView, db: Map<u64, ChunkCombination>, items: Seq<u64>)
    requires
        keyed(n, db),
        process_ok(n, db, items),
    ensures
        keyed(process(n, db, items), db),
    decreases items.len(),
{
    if items.len() > 0 {
        lemma_process_keyed(n, db, items.drop_last());
        lemma_process_fields(n, db, items.drop_last());
        lemma_add_internal_keyed(process(n, db, items.drop_last()), db, layer_key(n.layer, db[items.last()]), items.last());
    }
}

/// The set `pop_first` chooses a bucket in holds the same items, keyed.
proof fn lemma_sorted_view(n: NodeView, db: Map<u64, ChunkCombination>)
    requires
        keyed(n, db),
        process_ok(decremented(n), db, n.unsorted),
    ensures
        keyed(sorted_view(n, db), db),
        node_items(sorted_view(n, db)) == node_items(n),
        sorted_view(n, db).layer == n.layer,
{
    lemma_keyed_decremented(n, db);
    lemma_process_keyed(decremented(n), db, n.unsorted);
    lemma_process_fields(decremented(n), db, n.unsorted);
    lemma_process_items(decremented(n), db, n.unsorted);
    let p = sorted_view(n, db);
    assert(p.unsorted.to_set() =~= Set::empty());
    assert(node_items(p) =~= node_items(n));
}

/// `pop_first` hands out the first item: what it gives is an item of the
/// set, and no item of the set ranks before it (see `ranks_no_later`), for
/// a set whose items stand in the buckets of their keys.
pub proof fn law_pop_first_gives_first(n: NodeView, db: Map<u64, ChunkCombination>, r: Option<u64>, w: NodeView)
    requires
        keyed(n, db),
        pop_ok(n, db),
        pop_outcome(n, db, r, w),
    ensures
        r matches Some(x) ==> node_items(n).contains(x) && forall|y: u64|
            #[trigger] node_items(n).contains(y) ==> ranks_no_later(n.layer, db[x], db[y]),
    decreases u32::MAX - n.layer,
{
    if n.size > 0 {
        let p = sorted_view(n, db);
        lemma_sorted_view(n, db);
        let keys = bucket_keys(p.buckets);
        let k = best_key(n.layer, keys);
        lemma_best_key_exists(n.layer, keys);
        let i = bucket_index(p.buckets, k);
        lemma_bucket_index(p.buckets, k);
        let t = choose|t: int| 0 <= t < keys.len() && keys[t] == k;
        assert(p.buckets[t].0 == k);
        assert(i >= 0);
        assert(p.buckets[i].0 == k);
        match p.buckets[i].1 {
            EntryView::Leaf(h) => {
                if let Some(x) = r {
                    assert(p.buckets.len() == 1);
                    assert(i == 0);
                    assert(p.buckets.drop_last() =~= Seq::<(u64, EntryView)>::empty());
                    assert(buckets_items(p.buckets) =~= h);
                    assert(p.unsorted.to_set() =~= Set::empty());
                    assert(node_items(p) =~= h);
                }
            },
            EntryView::Node(m) => {
                let m2 = choose|m2: NodeView| #[trigger] m2.size == m2.size && {
                    let p2 = NodeView { buckets: p.buckets.update(i, (k, EntryView::Node(m2))), ..p };
                    &&& pop_outcome(m, db, r, m2)
                    &&& w == if m2.size == 0 {
                        view_delete_key(p2, k)
                    } else {
                        p2
                    }
                };
                assert(keyed(m, db));
                law_pop_first_gives_first(m, db, r, m2);
                if let Some(x) = r {
                    assert(entry_items(p.buckets[i].1).contains(x));
                    lemma_buckets_items(p.buckets, x);
                    assert(p.unsorted.to_set() =~= Set::empty());
                    assert(node_items(p).contains(x));
                    assert forall|y: u64| #[trigger] node_items(n).contains(y) implies ranks_no_later(n.layer, db[x], db[y]) by {
                        assert(node_items(p).contains(y));
                        assert(!p.unsorted.to_set().contains(y));
                        lemma_buckets_items(p.buckets, y);
                        let j = choose|j: int| 0 <= j < p.buckets.len() && #[trigger] entry_items(p.buckets[j].1).contains(y);
                        if j == i {
                            assert(node_items(m).contains(y));
                            assert(ranks_no_later(m.layer, db[x], db[y]));
                            assert(keyed_at(n.layer, db, k, x));
                            assert(keyed_at(n.layer, db, k, y));
                            assert(next_layer(n.layer) == m.layer);
                        } else {
                            assert(keys[j] == p.buckets[j].0);
                            assert(keys[i] == k);
                            assert(keys[j] != k);
                            assert(n.layer < 3);
                            assert(keyed_at(n.layer, db, k, x));
                            assert(keyed_at(n.layer, db, p.buckets[j].0, y));
                            assert(bucket_ordering(n.layer, k, keys[j]) == Ordering::Less);
                        }
                    }
                }
            },
        }
    }
}


/// Combination `a` ranks before or with `b` from the first layer on: it
/// saves more size; or as much, with a smaller merged size; or as large a
/// one, with its chunks closer together; or as close, with its second chunk
/// no later.
pub open spec fn saves_most_first(a: ChunkCombination, b: ChunkCombination) -> bool {
    ||| a.size_diff > b.size_diff
    ||| a.size_diff == b.size_diff && a.integrated_size < b.integrated_size
    ||| a.size_diff == b.size_diff && a.integrated_size == b.integrated_size
        && ((a.b_idx - a.a_idx) as u64) < ((b.b_idx - b.a_idx) as u64)
    ||| a.size_diff == b.size_diff && a.integrated_size == b.integrated_size
        && ((a.b_idx - a.a_idx) as u64) == ((b.b_idx - b.a_idx) as u64) && a.b_idx <= b.b_idx
}

/// The ranking from the first layer on is the one of `saves_most_first`.
proof fn lemma_ranks_from_first_layer(a: ChunkCombination, b: ChunkCombination)
    ensures
        ranks_no_later(0, a, b) <==> saves_most_first(a, b),
{
    reveal_with_fuel(ranks_no_later, 4);
    assert(next_layer(0) == 1);
    assert(next_layer(1) == 2);
    assert(next_layer(2) == 3);
}

/// From a set of the first layer, `pop_first` hands out a combination that
/// saves the most size of all the set holds; of those, one with the
/// smallest merged size; then one whose chunks stand closest; then one
/// whose second chunk comes first.
pub proof fn law_pop_first_saves_most(n: NodeView, db: Map<u64, ChunkCombination>, r: Option<u64>, w: NodeView)
    requires
        n.layer == 0,
        keyed(n, db),
        pop_ok(n, db),
        pop_outcome(n, db, r, w),
    ensures
        r matches Some(x) ==> {
            &&& node_items(n).contains(x)
            &&& forall|y: u64| #[trigger] node_items(n).contains(y) ==> db[x].size_diff >= db[y].size_diff
            &&& forall|y: u64| #[trigger] node_items(n).contains(y) ==> saves_most_first(db[x], db[y])
        },
{
    law_pop_first_gives_first(n, db, r, w);
    if let Some(x) = r {
        assert forall|y: u64| #[trigger] node_items(n).contains(y) implies saves_most_first(db[x], db[y]) by {
            lemma_ranks_from_first_layer(db[x], db[y]);
        }
    }
}

/// Adding an item that is not unsorted, then taking it out, gives the set
/// back; taking it out works.
pub proof fn law_add_then_delete(n: NodeView, item: u64, db: Map<u64, ChunkCombination>)
    requires
        !n.unsorted.contains(item),
        n.size < u32::MAX,
    ensures
        delete_ok(view_add(n, item), item, db),
        view_delete(view_add(n, item), item, db) == n,
{
    let a = view_add(n, item);
    assert(a.unsorted == n.unsorted.push(item));
    assert(a.unsorted[n.unsorted.len() as int] == item);
    assert(a.unsorted.contains(item));
    lemma_filter_absent(n.unsorted, item);
    reveal(Seq::filter);
    assert(a.unsorted.drop_last() =~= n.unsorted);
    assert(a.unsorted.filter(all_but(item)) == n.unsorted.filter(all_but(item)));
}

/// Whether the bucket sorted set of an exec value is well formed: keys,
/// buckets and unsorted items each once; plain sets only at layer 3, sets
/// of the next layer elsewhere.
pub closed spec fn set_wf(s: LazyBucketSortedSet) -> bool
    decreases s,
{
    &&& s.keys@.no_duplicates()
    &&& s.unsorted_items@.no_duplicates()
    &&& s.keys@.to_set() == map_keys(s.map@).to_set()
    &&& map_keys(s.map@).no_duplicates()
    &&& map_wf(s.layer, s.map@)
}

/// The keys of a list of keyed buckets.
pub open spec fn map_keys(m: Seq<(u64, BucketMapVariant)>) -> Seq<u64> {
    m.map_values(|e: (u64, BucketMapVariant)| e.0)
}

/// Every bucket of a list is well formed for the layer.
pub closed spec fn map_wf(layer: u32, m: Seq<(u64, BucketMapVariant)>) -> bool
    decreases m,
{
    if m.len() == 0 {
        true
    } else {
        map_wf(layer, m.drop_last()) && variant_wf(layer, m.last().1)
    }
}

/// A bucket is well formed for the layer.
pub closed spec fn variant_wf(layer: u32, v: BucketMapVariant) -> bool
    decreases v,
{
    match v {
        BucketMapVariant::HashSetVariant(h) => layer == 3 && h@.no_duplicates(),
        BucketMapVariant::LazyBucketVariant(s) => layer != 3 && s.layer == layer + 1 && set_wf(s),
    }
}

/// Every bucket of a list is well formed exactly when each one is.
proof fn lemma_map_wf(layer: u32, m: Seq<(u64, BucketMapVariant)>)
    ensures
        map_wf(layer, m) <==> forall|i: int| 0 <= i < m.len() ==> #[trigger] variant_wf(layer, m[i].1),
    decreases m.len(),
{
    if m.len() > 0 {
        lemma_map_wf(layer, m.drop_last());
        if map_wf(layer, m) {
            assert forall|i: int| 0 <= i < m.len() implies #[trigger] variant_wf(layer, m[i].1) by {
                if i < m.len() - 1 {
                    assert(m.drop_last()[i] == m[i]);
                }
            }
        }
        if forall|i: int| 0 <= i < m.len() ==> #[trigger] variant_wf(layer, m[i].1) {
            assert forall|i: int| 0 <= i < m.drop_last().len() implies #[trigger] variant_wf(layer, m.drop_last()[i].1) by {
                assert(m.drop_last()[i] == m[i]);
            }
            assert(variant_wf(layer, m[m.len() - 1].1));
        }
    }
}


/// What `bucket_index` finds: the first bucket with the key, or none.
proof fn lemma_bucket_index(b: Seq<(u64, EntryView)>, key: u64)
    ensures
        bucket_index(b, key) >= 0 ==> bucket_index(b, key) < b.len() && b[bucket_index(b, key)].0 == key,
        forall|j: int| 0 <= j < b.len() && (bucket_index(b, key) < 0 || j < bucket_index(b, key)) ==> b[j].0 != key,
        bucket_index(b, key) >= -1,
    decreases b.len(),
{
    if b.len() > 0 && b[0].0 != key {
        lemma_bucket_index(b.drop_first(), key);
        assert forall|j: int| 0 < j < b.len() implies b[j] == b.drop_first()[j - 1] by {}
    }
}

/// The position of the bucket with `key` in a list of keyed buckets, if any.
fn find_bucket(map: &Vec<(u64, BucketMapVariant)>, key: u64) -> (r: Option<usize>)
    ensures
        bucket_index(map_view(map@), key) >= 0 <==> r is Some,
        r matches Some(i) ==> i == bucket_index(map_view(map@), key) && i < map@.len() && map@[i as int].0 == key,
{
    let ghost b = map_view(map@);
    proof {
        lemma_map_view(map@);
        lemma_bucket_index(b, key);
    }
    let mut i: usize = 0;
    while i < map.len()
        invariant
            i <= map@.len(),
            b == map_view(map@),
            b.len() == map@.len(),
            forall|j: int| 0 <= j < map@.len() ==> #[trigger] b[j] == (map@[j].0, variant_view(map@[j].1)),
            forall|j: int| 0 <= j < i ==> map@[j].0 != key,
            bucket_index(b, key) >= 0 ==> bucket_index(b, key) < b.len() && b[bucket_index(b, key)].0 == key,
            forall|j: int| 0 <= j < b.len() && (bucket_index(b, key) < 0 || j < bucket_index(b, key)) ==> b[j].0 != key,
            bucket_index(b, key) >= -1,
        decreases map@.len() - i,
    {
        if map[i].0 == key {
            proof {
                assert(b[i as int].0 == key);
                if bucket_index(b, key) < i {
                    assert(b[bucket_index(b, key)].0 == map@[bucket_index(b, key)].0);
                }
            }
            return Some(i);
        }
        i = i + 1;
    }
    proof {
        if bucket_index(b, key) >= 0 {
            assert(b[bucket_index(b, key)].0 == map@[bucket_index(b, key)].0);
        }
    }
    None
}

/// Replacing a keyed bucket by one with the same key keeps the keys.
proof fn lemma_map_keys_update(m: Seq<(u64, BucketMapVariant)>, i: int, v: BucketMapVariant)
    requires
        0 <= i < m.len(),
    ensures
        map_keys(m.update(i, (m[i].0, v))) == map_keys(m),
{
    assert(map_keys(m.update(i, (m[i].0, v))) =~= map_keys(m));
}

/// Dropping a keyed bucket drops its key.
proof fn lemma_map_keys_remove(m: Seq<(u64, BucketMapVariant)>, i: int)
    requires
        0 <= i < m.len(),
        map_keys(m).no_duplicates(),
    ensures
        map_keys(m.remove(i)) == map_keys(m).remove(i),
        map_keys(m.remove(i)).no_duplicates(),
        map_keys(m.remove(i)).to_set() == map_keys(m).to_set().remove(m[i].0),
{
    let k = map_keys(m);
    assert(map_keys(m.remove(i)) =~= k.remove(i));
    assert(k.remove(i).to_set() =~= k.to_set().remove(m[i].0)) by {
        assert forall|x: u64| k.remove(i).contains(x) implies k.to_set().remove(m[i].0).contains(x) by {
            let j = choose|j: int| 0 <= j < k.remove(i).len() && k.remove(i)[j] == x;
            assert(k[i] == m[i].0);
            if j < i {
                assert(k[j] == x);
                assert(k[j] != k[i]);
            } else {
                assert(k[j + 1] == x);
                assert(k[j + 1] != k[i]);
            }
        }
        assert forall|x: u64| k.to_set().remove(m[i].0).contains(x) implies k.remove(i).contains(x) by {
            let j = choose|j: int| 0 <= j < k.len() && k[j] == x;
            assert(j != i);
            if j < i {
                assert(k.remove(i)[j] == x);
            } else {
                assert(k.remove(i)[j - 1] == x);
            }
        }
    }
}

/// Adding a keyed bucket adds its key.
proof fn lemma_map_keys_push(m: Seq<(u64, BucketMapVariant)>, e: (u64, BucketMapVariant))
    ensures
        map_keys(m.push(e)) == map_keys(m).push(e.0),
{
    assert(map_keys(m.push(e)) =~= map_keys(m).push(e.0));
}


/// How a layer orders bucket keys (layers 0 to 2 have an order).
fn bucket_order(layer: u32, a: u64, b: u64) -> (r: Ordering)
    requires
        layer < 3,
    ensures
        r == bucket_ordering(layer, a, b),
{
    match layer {
        0 => {
            if a > b {
                Ordering::Less
            } else if a == b {
                Ordering::Equal
            } else {
                Ordering::Greater
            }
        },
        1 | 2 => {
            if a > b {
                Ordering::Greater
            } else if a == b {
                Ordering::Equal
            } else {
                Ordering::Less
            }
        },
        _ => vstd::pervasive::unreached(),
    }
}

/// How the plain sets of the last layer order positions: the smaller first.
fn leaf_order(a: usize, b: usize) -> (r: Ordering)
    ensures
        (r == Ordering::Greater) == (a > b),
        (r == Ordering::Equal) == (a == b),
{
    if a > b {
        Ordering::Greater
    } else if a == b {
        Ordering::Equal
    } else {
        Ordering::Less
    }
}

/// Calls itertools' `sorted_by` on a copy of the keys with `bucket_order`
/// for the layer (it collects the items and sorts them with std's stable
/// `sort_by`, which compares nothing when there are fewer than two). The
/// contract claims what a sort by that total order gives: the same keys,
/// none placed after one that the layer orders before it.
#[verifier::external_body]
fn sorted_bucket_keys(keys: &Vec<u64>, layer: u32) -> (r: Vec<u64>)
    requires
        keys@.len() >= 2 ==> layer < 3,
    ensures
        r@.to_multiset() == keys@.to_multiset(),
        forall|i: int, j: int| 0 <= i < j < r@.len() ==> bucket_ordering(layer, r@[i], r@[j]) != Ordering::Greater,
{
    keys.clone().into_iter().sorted_by(|a, b| bucket_order(layer, *a, *b)).collect()
}

/// Calls itertools' `sorted_by` on pairs of a position and an item with
/// `leaf_order` on the positions (a stable sort by std's `sort_by`). The
/// contract claims what a sort by that total preorder gives: the same
/// pairs, the positions never decreasing.
#[verifier::external_body]
fn sorted_by_position(items: Vec<(usize, u64)>) -> (r: Vec<(usize, u64)>)
    ensures
        r@.to_multiset() == items@.to_multiset(),
        forall|i: int, j: int| 0 <= i < j < r@.len() ==> r@[i].0 <= r@[j].0,
{
    items.into_iter().sorted_by(|a, b| leaf_order(a.0, b.0)).collect()
}

/// An item with its position.
pub open spec fn positioned(db: Map<u64, ChunkCombination>) -> spec_fn(u64) -> (usize, u64) {
    |x: u64| (db[x].b_idx, x)
}

/// Takes from a plain set of the last layer an item whose second chunk
/// comes first, and gives it with the others.
fn pop_from_leaf(h: &Vec<u64>, chunk_combination_by_ukey: &Database<ChunkCombination>) -> (r: (u64, Vec<u64>))
    requires
        h@.len() > 0,
        h@.no_duplicates(),
        h@.len() >= 2 ==> forall|x: u64| h@.contains(x) ==> chunk_combination_by_ukey@.contains_key(x),
    ensures
        h@.contains(r.0),
        forall|y: u64| h@.contains(y) ==> chunk_combination_by_ukey@[r.0].b_idx <= chunk_combination_by_ukey@[y].b_idx,
        r.1@.no_duplicates(),
        r.1@.to_set() == h@.to_set().remove(r.0),
{
    let ghost db = chunk_combination_by_ukey@;
    let ghost f = positioned(db);
    if h.len() == 1 {
        proof {
            assert(h@ =~= seq![h@[0]]);
            assert(h@.to_set().remove(h@[0]) =~= Seq::<u64>::empty().to_set()) by {
                assert(h@.contains(h@[0]));
            }
        }
        return (h[0], Vec::new());
    }
    let mut pairs: Vec<(usize, u64)> = Vec::new();
    let mut t: usize = 0;
    while t < h.len()
        invariant
            t <= h@.len(),
            db == chunk_combination_by_ukey@,
            f == positioned(db),
            forall|x: u64| h@.contains(x) ==> db.contains_key(x),
            pairs@ =~= h@.take(t as int).map_values(f),
        decreases h@.len() - t,
    {
        let x = h[t];
        let c = match chunk_combination_by_ukey.get(x) {
            Some(c) => c,
            None => {
                proof {
                    assert(h@.contains(h@[t as int]));
                }
                vstd::pervasive::unreached()
            },
        };
        pairs.push((c.b_idx, x));
        proof {
            assert(h@.take(t + 1) =~= h@.take(t as int).push(x));
        }
        t = t + 1;
    }
    let ghost pv = pairs@;
    proof {
        assert(h@.take(h@.len() as int) =~= h@);
        assert(vstd::relations::injective(f)) by {
            assert forall|a: u64, b: u64| #[trigger] f(a) == #[trigger] f(b) implies a == b by {
                assert(f(a).1 == a && f(b).1 == b);
            }
        }
        h@.lemma_no_duplicates_injective(f);
    }
    let mut sorted = sorted_by_position(pairs);
    let ghost s0 = sorted@;
    proof {
        assert(pv.len() == h@.len());
        assert(s0.to_multiset() == pv.to_multiset());
        assert(s0.len() == s0.to_multiset().len());
        assert(pv.len() == pv.to_multiset().len());
        pv.lemma_multiset_has_no_duplicates();
        s0.lemma_multiset_has_no_duplicates_conv();
        assert forall|s: int| 0 <= s < s0.len() implies #[trigger] s0[s] == f(s0[s].1) && h@.contains(s0[s].1) by {
            assert(s0.contains(s0[s]));
            assert(s0.to_multiset().count(s0[s]) > 0);
            assert(pv.to_multiset().count(s0[s]) > 0);
            assert(pv.contains(s0[s]));
            let t = choose|t: int| 0 <= t < pv.len() && pv[t] == s0[s];
            assert(pv[t] == f(h@[t]));
        }
        assert forall|y: u64| h@.contains(y) implies exists|s: int| 0 <= s < s0.len() && s0[s] == f(y) by {
            let t = choose|t: int| 0 <= t < h@.len() && h@[t] == y;
            assert(pv[t] == f(y));
            assert(pv.contains(f(y)));
            assert(pv.to_multiset().count(f(y)) > 0);
            assert(s0.to_multiset().count(f(y)) > 0);
            assert(s0.contains(f(y)));
        }
    }
    let first = sorted.remove(0);
    let ghost x = first.1;
    let mut rest: Vec<u64> = Vec::new();
    let mut k: usize = 0;
    while k < sorted.len()
        invariant
            k <= sorted@.len(),
            sorted@ == s0.drop_first(),
            rest@ =~= sorted@.take(k as int).map_values(|p: (usize, u64)| p.1),
        decreases sorted@.len() - k,
    {
        rest.push(sorted[k].1);
        proof {
            assert(sorted@.take(k + 1) =~= sorted@.take(k as int).push(sorted@[k as int]));
        }
        k = k + 1;
    }
    proof {
        assert(sorted@.take(sorted@.len() as int) =~= sorted@);
        assert(s0[0] == f(x));
        assert forall|y: u64| h@.contains(y) implies db[x].b_idx <= db[y].b_idx by {
            let s = choose|s: int| 0 <= s < s0.len() && s0[s] == f(y);
            if s > 0 {
                assert(s0[0].0 <= s0[s].0);
            }
        }
        assert forall|a: int, b: int| 0 <= a < rest@.len() && 0 <= b < rest@.len() && a != b implies rest@[a] != rest@[b] by {
            assert(rest@[a] == s0[a + 1].1);
            assert(rest@[b] == s0[b + 1].1);
            assert(s0[a + 1] == f(s0[a + 1].1));
            assert(s0[b + 1] == f(s0[b + 1].1));
        }
        assert(rest@.to_set() =~= h@.to_set().remove(x)) by {
            assert forall|z: u64| rest@.contains(z) implies h@.to_set().remove(x).contains(z) by {
                let a = choose|a: int| 0 <= a < rest@.len() && rest@[a] == z;
                assert(rest@[a] == s0[a + 1].1);
                assert(s0[a + 1] == f(s0[a + 1].1));
                assert(h@.contains(z));
                if z == x {
                    assert(s0[a + 1] == s0[0]);
                }
            }
            assert forall|z: u64| h@.to_set().remove(x).contains(z) implies rest@.contains(z) by {
                let s = choose|s: int| 0 <= s < s0.len() && s0[s] == f(z);
                assert(s != 0);
                assert(rest@[s - 1] == z);
            }
        }
    }
    (first.1, rest)
}

impl BucketMapVariant {
    /// Puts `item` into the bucket.
    fn insert_item_for_entry(&mut self, item: ChunkCombinationUkey)
        requires
            exists|l: u32| variant_wf(l, *old(self)),
            match *old(self) {
                BucketMapVariant::HashSetVariant(_) => true,
                BucketMapVariant::LazyBucketVariant(s) => s.size < u32::MAX,
            },
        ensures
            variant_view(*final(self)) == entry_insert(variant_view(*old(self)), item),
            forall|l: u32| variant_wf(l, *old(self)) ==> variant_wf(l, *final(self)),
    {
        match self {
            BucketMapVariant::HashSetVariant(entry_inner_hash_set) => {
                insert_key(entry_inner_hash_set, item);
            },
            BucketMapVariant::LazyBucketVariant(entry_inner_bucket_set) => {
                entry_inner_bucket_set.add(item);
            },
        }
    }
}

impl LazyBucketSortedSet {
    /// An empty set of the given layer.
    pub fn new(layer: u32) -> (r: LazyBucketSortedSet)
        ensures
            r.wf(),
            r@ == empty_view(layer),
    {
        let r = LazyBucketSortedSet {
            layer,
            keys: Vec::new(),
            map: Vec::new(),
            unsorted_items: Vec::new(),
            size: 0,
        };
        proof {
            assert(map_keys(r.map@) =~= Seq::empty());
            assert(r.keys@.to_set() =~= Set::empty());
            assert(map_keys(r.map@).to_set() =~= Set::empty());
            assert(map_view(r.map@) =~= Seq::empty());
        }
        r
    }

    /// Drops the bucket with `key`.
    pub fn delete_key(&mut self, key: u64)
        requires
            old(self).wf(),
        ensures
            final(self).wf(),
            final(self)@ == view_delete_key(old(self)@, key),
    {
        remove_key(&mut self.keys, key);
        let ghost old_map = self.map@;
        match find_bucket(&self.map, key) {
            Some(i) => {
                self.map.remove(i);
                proof {
                    lemma_map_keys_remove(old_map, i as int);
                    lemma_map_wf(self.layer, old_map);
                    lemma_map_wf(self.layer, self.map@);
                    lemma_map_view(old_map);
                    lemma_map_view(self.map@);
                    assert(map_view(self.map@) =~= map_view(old_map).remove(i as int));
                }
            },
            None => {
                proof {
                    lemma_map_view(old_map);
                    assert(!map_keys(old_map).contains(key)) by {
                        lemma_bucket_index(map_view(old_map), key);
                        if map_keys(old_map).contains(key) {
                            let j = choose|j: int| 0 <= j < map_keys(old_map).len() && map_keys(old_map)[j] == key;
                            assert(map_view(old_map)[j].0 == key);
                        }
                    }
                    assert(self.keys@.to_set() =~= map_keys(self.map@).to_set());
                }
            },
        }
    }


    /// Puts `item` into the bucket with `key`; a missing bucket is made
    /// first: a plain set at layer 3, a set of the next layer elsewhere.
    pub fn add_internal(&mut self, key: u64, item: ChunkCombinationUkey)
        requires
            old(self).wf(),
            add_internal_ok(old(self)@, key),
        ensures
            final(self).wf(),
            final(self)@ == view_add_internal(old(self)@, key, item),
    {
        let ghost old_map = self.map@;
        proof {
            lemma_map_view(old_map);
            lemma_map_wf(self.layer, old_map);
        }
        match find_bucket(&self.map, key) {
            Some(i) => {
                let (k, mut entry) = self.map.remove(i);
                proof {
                    assert(variant_wf(self.layer, entry));
                    assert(map_view(old_map)[i as int].1 == variant_view(entry));
                }
                entry.insert_item_for_entry(item);
                self.map.insert(i, (k, entry));
                proof {
                    assert(self.map@ =~= old_map.update(i as int, (k, entry)));
                    lemma_map_keys_update(old_map, i as int, entry);
                    lemma_map_wf(self.layer, self.map@);
                    lemma_map_view(self.map@);
                    assert(map_view(self.map@) =~= map_view(old_map).update(
                        i as int,
                        (key, entry_insert(map_view(old_map)[i as int].1, item)),
                    ));
                }
            },
            None => {
                let mut entry_new: BucketMapVariant = if self.layer == 3 {
                    BucketMapVariant::HashSetVariant(Vec::new())
                } else {
                    BucketMapVariant::LazyBucketVariant(LazyBucketSortedSet::new(self.layer + 1))
                };
                proof {
                    assert(variant_wf(self.layer, entry_new));
                }
                insert_key(&mut self.keys, key);
                entry_new.insert_item_for_entry(item);
                self.map.push((key, entry_new));
                proof {
                    lemma_map_keys_push(old_map, (key, entry_new));
                    map_keys(old_map).lemma_push_to_set_commute(key);
                    assert(!map_keys(old_map).contains(key)) by {
                        lemma_bucket_index(map_view(old_map), key);
                        if map_keys(old_map).contains(key) {
                            let j = choose|j: int| 0 <= j < map_keys(old_map).len() && map_keys(old_map)[j] == key;
                            assert(map_view(old_map)[j].0 == key);
                        }
                    }
                    lemma_map_wf(self.layer, self.map@);
                    lemma_map_view(self.map@);
                    assert(self.map@.drop_last() =~= old_map);
                    if self.layer == 3 {
                        assert(Seq::<u64>::empty().to_set().insert(item) =~= set![item]);
                    }
                    assert(map_view(self.map@) =~= map_view(old_map).push((key, new_entry(self.layer, item))));
                }
            },
        }
    }


    /// The key of a combination at this set's layer.
    fn get_key_by_layer(&self, a: &ChunkCombination) -> (r: u64)
        requires
            key_defined(self.layer, *a),
        ensures
            r == layer_key(self.layer, *a),
    {
        match self.layer {
            0 => a.size_diff,
            1 => a.integrated_size,
            2 => (a.b_idx - a.a_idx) as u64,
            _ => vstd::pervasive::unreached(),
        }
    }

    /// Takes `item` out (see `view_delete`).
    pub fn delete(
        &mut self,
        item: &ChunkCombinationUkey,
        chunk_combination_by_ukey: &Database<ChunkCombination>,
    )
        requires
            old(self).wf(),
            delete_ok(old(self)@, *item, chunk_combination_by_ukey@),
        ensures
            final(self).wf(),
            final(self)@ == view_delete(old(self)@, *item, chunk_combination_by_ukey@),
        decreases u32::MAX - self@.layer,
    {
        self.size = self.size - 1;
        if contains_key(&self.unsorted_items, *item) {
            remove_key(&mut self.unsorted_items, *item);
        } else {
            let chunk_combination = match chunk_combination_by_ukey.get(*item) {
                Some(c) => c,
                None => vstd::pervasive::unreached(),
            };
            let key = self.get_key_by_layer(chunk_combination);
            let ghost old_map = self.map@;
            proof {
                lemma_map_view(old_map);
                lemma_map_wf(self.layer, old_map);
            }
            let i = match find_bucket(&self.map, key) {
                Some(i) => i,
                None => vstd::pervasive::unreached(),
            };
            let (k, entry) = self.map.remove(i);
            proof {
                assert(variant_wf(self.layer, entry));
                assert(map_view(old_map)[i as int].1 == variant_view(entry));
            }
            let (entry2, empty) = match entry {
                BucketMapVariant::HashSetVariant(mut entry_inner_hash_set) => {
                    let ghost h0 = entry_inner_hash_set@;
                    remove_key(&mut entry_inner_hash_set, *item);
                    let empty = entry_inner_hash_set.len() == 0;
                    proof {
                        if !empty {
                            assert(entry_inner_hash_set@.contains(entry_inner_hash_set@[0]));
                        }
                        entry_inner_hash_set@.unique_seq_to_set();
                    }
                    (BucketMapVariant::HashSetVariant(entry_inner_hash_set), empty)
                },
                BucketMapVariant::LazyBucketVariant(mut entry_inner_bucket_set) => {
                    entry_inner_bucket_set.delete(item, chunk_combination_by_ukey);
                    let empty = entry_inner_bucket_set.size == 0;
                    (BucketMapVariant::LazyBucketVariant(entry_inner_bucket_set), empty)
                },
            };
            self.map.insert(i, (k, entry2));
            proof {
                assert(variant_wf(self.layer, entry2));
                assert(self.map@ =~= old_map.update(i as int, (k, entry2)));
                lemma_map_keys_update(old_map, i as int, entry2);
                lemma_map_wf(self.layer, self.map@);
                lemma_map_view(self.map@);
                assert(map_view(self.map@) =~= map_view(old_map).update(i as int, (key, variant_view(entry2))));
            }
            if empty {
                self.delete_key(key);
            }
        }
    }


    /// The key of the bucket the layer orders first.
    fn best_bucket_key(&self) -> (k: u64)
        requires
            self.wf(),
            map_keys(self.map@).len() > 0,
            map_keys(self.map@).len() >= 2 ==> self.layer < 3,
        ensures
            is_best_key(self.layer, map_keys(self.map@), k),
    {
        let ghost keys = self.keys@;
        let ghost mk = map_keys(self.map@);
        proof {
            keys.unique_seq_to_set();
            mk.unique_seq_to_set();
        }
        let sorted_keys = sorted_bucket_keys(&self.keys, self.layer);
        proof {
            assert(sorted_keys@.len() == sorted_keys@.to_multiset().len());
            assert(keys.len() == keys.to_multiset().len());
        }
        let k = sorted_keys[0];
        proof {
            let sk = sorted_keys@;
            assert(sk.contains(k));
            assert(sk.to_multiset().count(k) > 0);
            assert(keys.to_multiset().count(k) > 0);
            assert(keys.to_set().contains(k));
            assert(mk.to_set().contains(k));
            assert forall|j: int| 0 <= j < mk.len() && mk[j] != k implies bucket_ordering(self.layer, k, #[trigger] mk[j]) == Ordering::Less by {
                assert(mk.to_set().contains(mk[j]));
                assert(keys.to_set().contains(mk[j]));
                assert(keys.contains(mk[j]));
                assert(keys.to_multiset().count(mk[j]) > 0);
                assert(sk.to_multiset().count(mk[j]) > 0);
                assert(sk.contains(mk[j]));
                let t = choose|t: int| 0 <= t < sk.len() && sk[t] == mk[j];
                assert(t != 0);
                assert(bucket_ordering(self.layer, sk[0], sk[t]) != Ordering::Greater);
            }
        }
        k
    }


    /// Hands out the first item (see `pop_outcome`): the unsorted items are
    /// first put into the buckets of their keys, and the first bucket gives
    /// the item.
    pub fn pop_first(
        &mut self,
        chunk_combination_by_ukey: &Database<ChunkCombination>,
    ) -> (r: Option<ChunkCombinationUkey>)
        requires
            old(self).wf(),
            pop_ok(old(self)@, chunk_combination_by_ukey@),
        ensures
            final(self).wf(),
            final(self)@.layer == old(self)@.layer,
            pop_outcome(old(self)@, chunk_combination_by_ukey@, r, final(self)@),
        decreases u32::MAX - self@.layer,
    {
        if self.size == 0 {
            return None;
        }
        let ghost n = self@;
        let ghost db = chunk_combination_by_ukey@;
        self.size = self.size - 1;
        proof {
            assert(n.unsorted.take(0) =~= Seq::<u64>::empty());
            assert(self@ == decremented(n));
        }
        if self.unsorted_items.len() > 0 {
            let mut j: usize = 0;
            while j < self.unsorted_items.len()
                invariant
                    self.wf(),
                    db == chunk_combination_by_ukey@,
                    self.unsorted_items@ == n.unsorted,
                    self.layer == n.layer,
                    j <= n.unsorted.len(),
                    process_ok(decremented(n), db, n.unsorted),
                    self@ == process(decremented(n), db, n.unsorted.take(j as int)),
                decreases n.unsorted.len() - j,
            {
                let item = self.unsorted_items[j];
                proof {
                    lemma_process_ok_prefix(decremented(n), db, n.unsorted, j + 1);
                    assert(n.unsorted.take(j + 1).drop_last() =~= n.unsorted.take(j as int));
                    assert(n.unsorted.take(j + 1).last() == item);
                }
                let chunk_combination = match chunk_combination_by_ukey.get(item) {
                    Some(c) => c,
                    None => vstd::pervasive::unreached(),
                };
                let key = self.get_key_by_layer(chunk_combination);
                self.add_internal(key, item);
                j = j + 1;
            }
            self.unsorted_items.clear();
            proof {
                assert(n.unsorted.take(n.unsorted.len() as int) =~= n.unsorted);
            }
        }
        let ghost p = self@;
        proof {
            lemma_process_fields(decremented(n), db, n.unsorted);
            if n.unsorted.len() == 0 {
                assert(n.unsorted =~= Seq::<u64>::empty());
            }
            assert(p == sorted_view(n, db));
            lemma_map_view(self.map@);
            assert(bucket_keys(p.buckets) =~= map_keys(self.map@));
        }
        let key = self.best_bucket_key();
        proof {
            lemma_best_key_unique(self.layer, map_keys(self.map@), key);
            lemma_bucket_index(p.buckets, key);
            let w = choose|w: int| 0 <= w < map_keys(self.map@).len() && map_keys(self.map@)[w] == key;
            assert(p.buckets[w].0 == key);
            lemma_map_wf(self.layer, self.map@);
        }
        let i = match find_bucket(&self.map, key) {
            Some(i) => i,
            None => vstd::pervasive::unreached(),
        };
        let ghost old_map = self.map@;
        proof {
            assert(p.buckets[i as int] == (key, variant_view(old_map[i as int].1)));
            assert(variant_wf(self.layer, old_map[i as int].1));
            assert(best_key(n.layer, bucket_keys(p.buckets)) == key);
            assert(bucket_index(p.buckets, key) == i);
            assert(pop_ok(n, db));
        }
        if self.layer == 3 {
            let (first_item, rest) = match &self.map[i].1 {
                BucketMapVariant::HashSetVariant(leaf_hash_set) => {
                    proof {
                        assert(p.buckets[i as int].1 == EntryView::Leaf(leaf_hash_set@.to_set()));
                        if leaf_hash_set@.len() == 0 {
                            assert(leaf_hash_set@.to_set() =~= Set::<u64>::empty());
                        }
                        leaf_hash_set@.unique_seq_to_set();
                        if leaf_hash_set@.len() >= 2 {
                            assert forall|x: u64| leaf_hash_set@.contains(x) implies db.contains_key(x) by {
                                assert(leaf_hash_set@.to_set().contains(x));
                            }
                        }
                    }
                    pop_from_leaf(leaf_hash_set, chunk_combination_by_ukey)
                },
                BucketMapVariant::LazyBucketVariant(_) => vstd::pervasive::unreached(),
            };
            let ghost h = match old_map[i as int].1 {
                BucketMapVariant::HashSetVariant(v) => v@.to_set(),
                BucketMapVariant::LazyBucketVariant(_) => Set::empty(),
            };
            proof {
                rest@.unique_seq_to_set();
                assert(h.remove(first_item).len() == rest@.len());
            }
            if rest.len() == 0 {
                self.delete_key(key);
            } else {
                self.map.remove(i);
                self.map.insert(i, (key, BucketMapVariant::HashSetVariant(rest)));
                proof {
                    assert(self.map@ =~= old_map.update(i as int, (key, BucketMapVariant::HashSetVariant(rest))));
                    lemma_map_keys_update(old_map, i as int, BucketMapVariant::HashSetVariant(rest));
                    lemma_map_wf(self.layer, self.map@);
                    lemma_map_view(self.map@);
                    assert(map_view(self.map@) =~= p.buckets.update(i as int, (key, EntryView::Leaf(h.remove(first_item)))));
                }
            }
            proof {
                assert(p.buckets[i as int].1 == EntryView::Leaf(h));
                assert(h.contains(first_item));
                assert forall|y: u64| h.contains(y) implies db[first_item].b_idx <= db[y].b_idx by {
                    match old_map[i as int].1 {
                        BucketMapVariant::HashSetVariant(v) => {
                            assert(v@.contains(y));
                        },
                        BucketMapVariant::LazyBucketVariant(_) => {},
                    }
                }
                assert(pop_outcome(n, db, Some(first_item), self@));
            }
            return Some(first_item);
        } else {
            let (k, entry) = self.map.remove(i);
            match entry {
                BucketMapVariant::LazyBucketVariant(mut node_bucket_set) => {
                    let ghost m2_old = node_bucket_set@;
                    let first_item = node_bucket_set.pop_first(chunk_combination_by_ukey);
                    let empty = node_bucket_set.size == 0;
                    self.map.insert(i, (k, BucketMapVariant::LazyBucketVariant(node_bucket_set)));
                    let ghost m2 = node_bucket_set@;
                    proof {
                        assert(self.map@ =~= old_map.update(i as int, (k, BucketMapVariant::LazyBucketVariant(node_bucket_set))));
                        lemma_map_keys_update(old_map, i as int, BucketMapVariant::LazyBucketVariant(node_bucket_set));
                        lemma_map_wf(self.layer, self.map@);
                        lemma_map_view(self.map@);
                        assert(map_view(self.map@) =~= p.buckets.update(i as int, (key, EntryView::Node(m2))));
                        assert(m2_old.layer == n.layer + 1);
                        assert(k == key);
                        assert(empty == (m2.size == 0));
                    }
                    let ghost p2 = self@;
                    proof {
                        assert(p2 == NodeView { buckets: p.buckets.update(i as int, (k, EntryView::Node(m2))), ..p });
                    }
                    if empty {
                        self.delete_key(key);
                    }
                    proof {
                        assert(p.buckets[i as int].1 == EntryView::Node(m2_old));
                        assert(pop_outcome(m2_old, db, first_item, m2));
                        assert(self@ == if m2.size == 0 { view_delete_key(p2, k) } else { p2 });
                        assert(pop_outcome(n, db, first_item, self@));
                    }
                    first_item
                },
                BucketMapVariant::HashSetVariant(_) => vstd::pervasive::unreached(),
            }
        }
    }


    /// Takes an unsorted `item` out and makes the size one less.
    pub fn finish_first(&mut self, item: ChunkCombinationUkey)
        requires
            old(self).wf(),
            old(self)@.size > 0,
        ensures
            final(self).wf(),
            final(self)@ == view_finish_first(old(self)@, item),
    {
        remove_key(&mut self.unsorted_items, item);
        self.size = self.size - 1;
    }

    /// Starts an update of `item` (see `view_start_update`) and tells what
    /// is left to do: `finish_update_first` for an item that was unsorted,
    /// `finish_update_second` otherwise.
    pub fn start_update(
        &mut self,
        item: &ChunkCombinationUkey,
        chunk_combination_by_ukey: &Database<ChunkCombination>,
    ) -> (r: FinishUpdateFuncs<impl Fn()>)
        requires
            old(self).wf(),
            start_update_ok(old(self)@, *item, chunk_combination_by_ukey@),
        ensures
            final(self).wf(),
            final(self)@ == view_start_update(old(self)@, *item, chunk_combination_by_ukey@),
            r.was_unsorted() == old(self)@.unsorted.contains(*item),
            r.can_finish(),
        decreases u32::MAX - self@.layer,
    {
        if contains_key(&self.unsorted_items, *item) {
            self.finish_first(*item);
            return FinishUpdateFuncs::finish_update_first(finish_nothing);
        } else {
            let chunk_combination = match chunk_combination_by_ukey.get(*item) {
                Some(c) => c,
                None => vstd::pervasive::unreached(),
            };
            let key = self.get_key_by_layer(chunk_combination);
            let ghost old_map = self.map@;
            proof {
                lemma_map_view(old_map);
                lemma_map_wf(self.layer, old_map);
            }
            let i = match find_bucket(&self.map, key) {
                Some(i) => i,
                None => vstd::pervasive::unreached(),
            };
            proof {
                assert(variant_wf(self.layer, old_map[i as int].1));
            }
            if self.layer == 3 {
                match &self.map[i].1 {
                    BucketMapVariant::HashSetVariant(_) => {},
                    BucketMapVariant::LazyBucketVariant(_) => vstd::pervasive::unreached(),
                }
            } else {
                let (k, entry) = self.map.remove(i);
                match entry {
                    BucketMapVariant::LazyBucketVariant(mut bucket_set) => {
                        bucket_set.start_update(item, chunk_combination_by_ukey);
                        self.map.insert(i, (k, BucketMapVariant::LazyBucketVariant(bucket_set)));
                        proof {
                            assert(self.map@ =~= old_map.update(i as int, (k, BucketMapVariant::LazyBucketVariant(bucket_set))));
                            lemma_map_keys_update(old_map, i as int, BucketMapVariant::LazyBucketVariant(bucket_set));
                            lemma_map_wf(self.layer, self.map@);
                            lemma_map_view(self.map@);
                            assert(map_view(self.map@) =~= map_view(old_map).update(i as int, (key, EntryView::Node(bucket_set@))));
                        }
                    },
                    BucketMapVariant::HashSetVariant(_) => vstd::pervasive::unreached(),
                }
            }
            return FinishUpdateFuncs::finish_update_second(finish_nothing);
        }
    }

    /// Adds `item`, unsorted; the size grows by one.
    pub fn add(&mut self, item: ChunkCombinationUkey)
        requires
            old(self).wf(),
            old(self)@.size < u32::MAX,
        ensures
            final(self).wf(),
            final(self)@ == view_add(old(self)@, item),
    {
        self.size = self.size + 1;
        let ghost old_unsorted = self.unsorted_items@;
        insert_key(&mut self.unsorted_items, item);
        proof {
            assert(self.unsorted_items@ == seq_insert(old_unsorted, item));
        }
    }
}

impl LazyBucketSortedSet {
    /// The set is well formed.
    pub open spec fn wf(&self) -> bool {
        set_wf(*self)
    }
}


/// Sorting items into buckets keeps the layer, the size and the unsorted items.
proof fn lemma_process_fields(n: NodeView, db: Map<u64, ChunkCombination>, items: Seq<u64>)
    ensures
        process(n, db, items).layer == n.layer,
        process(n, db, items).size == n.size,
        process(n, db, items).unsorted == n.unsorted,
    decreases items.len(),
{
    if items.len() > 0 {
        lemma_process_fields(n, db, items.drop_last());
    }
}

/// What works for a list of items works for each of its prefixes.
proof fn lemma_process_ok_prefix(n: NodeView, db: Map<u64, ChunkCombination>, items: Seq<u64>, j: int)
    requires
        process_ok(n, db, items),
        0 <= j <= items.len(),
    ensures
        process_ok(n, db, items.take(j)),
    decreases items.len(),
{
    if j == items.len() {
        assert(items.take(j) =~= items);
    } else {
        lemma_process_ok_prefix(n, db, items.drop_last(), j);
        assert(items.drop_last().take(j) =~= items.take(j));
    }
}

/// The views of the buckets line up with the buckets.
proof fn lemma_map_view(m: Seq<(u64, BucketMapVariant)>)
    ensures
        map_view(m).len() == m.len(),
        forall|i: int| 0 <= i < m.len() ==> #[trigger] map_view(m)[i] == (m[i].0, variant_view(m[i].1)),
    decreases m.len(),
{
    if m.len() > 0 {
        lemma_map_view(m.drop_last());
    }
}

} // verus!
