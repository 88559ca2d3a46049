use rspack_chunks::chunk::Chunk;
use rspack_chunks::chunk_combination::ChunkCombination;
use rspack_chunks::database::Database;
use rspack_chunks::lazy_bucket_sorted_set::{FinishUpdateFuncs, LazyBucketSortedSet};

fn chunk(ukey: u64) -> Chunk {
    Chunk {
        ukey,
        name: None,
        id_name_hints: Vec::new(),
        runtime: Vec::new(),
        groups: Vec::new(),
        prevent_integration: false,
    }
}

fn combination(ukey: u64, size_diff: u64, integrated_size: u64, a_idx: usize, b_idx: usize) -> ChunkCombination {
    ChunkCombination {
        ukey,
        deleted: false,
        size_diff,
        integrated_size,
        chunk_a: chunk(1),
        chunk_b: chunk(2),
        a_idx,
        b_idx,
        a_size: 0,
        b_size: 0,
    }
}

fn db(items: &[ChunkCombination]) -> Database<ChunkCombination> {
    let mut d = Database::new();
    for c in items {
        d.insert(
            c.ukey,
            combination(c.ukey, c.size_diff, c.integrated_size, c.a_idx, c.b_idx),
        );
    }
    d
}

#[test]
fn an_empty_set_gives_nothing() {
    let d = db(&[]);
    let mut s = LazyBucketSortedSet::new(0);
    assert_eq!(s.pop_first(&d), None);
}

#[test]
fn the_last_layer_gives_the_earliest_second_chunk() {
    let d = db(&[combination(10, 5, 5, 0, 4), combination(11, 5, 5, 0, 2), combination(12, 5, 5, 1, 3)]);
    let mut s = LazyBucketSortedSet::new(3);
    // Two additions and one deletion leave the size at one with nothing unsorted.
    s.add(10);
    s.add(10);
    s.delete(&10, &d);
    s.add_internal(7, 10);
    s.add_internal(7, 11);
    s.add_internal(7, 12);
    assert_eq!(s.pop_first(&d), Some(11));
    // The size is now zero.
    assert_eq!(s.pop_first(&d), None);
}

#[test]
fn deleting_an_unsorted_item_after_adding_it() {
    let d = db(&[combination(10, 1, 1, 0, 1)]);
    let mut s = LazyBucketSortedSet::new(0);
    s.add(10);
    s.delete(&10, &d);
    assert_eq!(s.pop_first(&d), None);
}

#[test]
fn start_update_of_an_unsorted_item_finishes_it() {
    let d = db(&[combination(10, 1, 1, 0, 1)]);
    let mut s = LazyBucketSortedSet::new(1);
    s.add(10);
    let f = s.start_update(&10, &d);
    assert!(matches!(f, FinishUpdateFuncs::finish_update_first(_)));
    f.finish();
    assert_eq!(s.pop_first(&d), None);
}

#[test]
fn start_update_of_a_sorted_item_passes_it_on() {
    let d = db(&[combination(10, 1, 1, 0, 1)]);
    let mut s = LazyBucketSortedSet::new(1);
    // Layer 1 keys by the merged size: 1.
    s.add_internal(1, 10);
    let f = s.start_update(&10, &d);
    assert!(matches!(f, FinishUpdateFuncs::finish_update_second(_)));
    f.finish();
}

#[test]
fn finish_first_takes_an_item_out() {
    let d = db(&[]);
    let mut s = LazyBucketSortedSet::new(2);
    s.add(3);
    s.finish_first(3);
    assert_eq!(s.pop_first(&d), None);
}

#[test]
fn delete_key_drops_a_bucket() {
    let d = db(&[combination(10, 5, 5, 0, 4)]);
    let mut s = LazyBucketSortedSet::new(3);
    s.add(10);
    s.add(10);
    s.delete(&10, &d);
    s.add_internal(7, 10);
    s.delete_key(7);
    s.add_internal(8, 10);
    assert_eq!(s.pop_first(&d), Some(10));
}

#[test]
fn deleting_a_sorted_item_leaves_the_others() {
    let d = db(&[combination(10, 5, 5, 0, 4), combination(11, 5, 5, 0, 2)]);
    let mut s = LazyBucketSortedSet::new(2);
    // At layer 2 the key is the distance of the chunks: 4 and 2.
    s.add(10);
    s.add_internal(4, 10);
    s.add(11);
    s.delete(&11, &d);
    s.delete(&10, &d);
    assert_eq!(s.pop_first(&d), None);
}
