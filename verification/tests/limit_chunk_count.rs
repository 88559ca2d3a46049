use rspack_chunks::chunk::{Chunk, ChunkGroup};
use rspack_chunks::chunk_graph::{ChunkGraph, ChunkSizeOptions};
use rspack_chunks::database::Database;
use rspack_chunks::limit_chunk_count::{
    chunk_combinations, Compilation, LimitChunkCountConfig, LimitChunkCountPlugin,
};
use rspack_chunks::module_graph::{Module, ModuleGraph, ModuleGraphModule, SourceType};

fn chunk(ukey: u64) -> Chunk {
    Chunk {
        ukey,
        name: None,
        id_name_hints: Vec::new(),
        runtime: Vec::new(),
        groups: Vec::new(),
        prevent_integration: false,
    }
}

fn module(id: &str, size: u64) -> Module {
    Module { identifier: id.to_string(), source_types: vec![SourceType::JavaScript], sizes: vec![size] }
}

fn compilation() -> Compilation {
    let mut chunk_graph = ChunkGraph::new();
    for m in ["a", "b", "c"] {
        chunk_graph.add_module(m.to_string());
    }
    let mut chunk_by_ukey = Database::new();
    for c in [1u64, 2, 3] {
        chunk_graph.add_chunk(c);
        chunk_by_ukey.insert(c, chunk(c));
    }
    chunk_graph.connect_chunk_and_module(1, "a".to_string());
    chunk_graph.connect_chunk_and_module(2, "a".to_string());
    chunk_graph.connect_chunk_and_module(2, "b".to_string());
    chunk_graph.connect_chunk_and_module(3, "c".to_string());
    let modules = vec![module("a", 100), module("b", 50), module("c", 20)];
    let module_graph_modules = modules
        .iter()
        .map(|m| ModuleGraphModule { module_identifier: m.identifier.clone() })
        .collect();
    Compilation {
        chunk_graph,
        chunk_by_ukey,
        chunk_group_by_ukey: Database::new(),
        module_graph: ModuleGraph { modules, module_graph_modules },
    }
}

fn config(max_chunks: u32) -> LimitChunkCountConfig {
    LimitChunkCountConfig { max_chunks, chunk_overhead: None, entry_chunk_multiplicator: None }
}

#[test]
fn limit_chunk_count_leaves_the_compilation_as_it_is() {
    let plugin = LimitChunkCountPlugin::new(config(1));
    let mut c = compilation();
    plugin.limit_chunk_count(&mut c);
    assert_eq!(c.chunk_by_ukey.len(), 3);
    assert_eq!(c.chunk_graph.get_number_of_chunk_modules(&2), 2);
    let plugin = LimitChunkCountPlugin::new(config(5));
    plugin.limit_chunk_count(&mut c);
    assert_eq!(c.chunk_by_ukey.len(), 3);
}

#[test]
fn chunk_combinations_cover_every_ordered_pair() {
    let mut c = compilation();
    let chunks: Vec<Chunk> = vec![chunk(3), chunk(1), chunk(2)];
    let ordered: Vec<&Chunk> = chunks.iter().collect();
    let options = ChunkSizeOptions { entry_chunk_multiplicator: None, chunk_overhead: None };
    let groups: Database<ChunkGroup> = Database::new();
    let combs = chunk_combinations(&mut c.chunk_graph, &ordered, &groups, &c.module_graph, options);
    let pairs: Vec<(usize, usize)> = combs.iter().map(|x| (x.a_idx, x.b_idx)).collect();
    assert_eq!(pairs, vec![(0, 1), (0, 2), (1, 2)]);
    let ukeys: Vec<u64> = combs.iter().map(|x| x.ukey).collect();
    assert_eq!(ukeys, vec![0, 1, 2]);
    // Chunks 3 ({c}) and 1 ({a}): sizes 10000+20+1 and 10000+100+1, merged 10000+10+120.
    let first = &combs[0];
    assert_eq!(first.chunk_a.ukey, 3);
    assert_eq!(first.chunk_b.ukey, 1);
    assert_eq!(first.a_size, 10021);
    assert_eq!(first.b_size, 10101);
    assert_eq!(first.integrated_size, 10130);
    assert_eq!(first.size_diff, 10021 + 10101 - 10130);
    assert!(!first.deleted);
    // Chunks 1 ({a}) and 2 ({a, b}) share module a: merged 10000+10+150.
    let last = &combs[2];
    assert_eq!(last.integrated_size, 10160);
    assert_eq!(last.size_diff, 10101 + 10151 - 10160);
}

#[test]
fn chunks_that_prevent_integration_make_no_combination() {
    let mut c = compilation();
    let mut p = chunk(2);
    p.prevent_integration = true;
    let chunks: Vec<Chunk> = vec![chunk(1), p];
    let ordered: Vec<&Chunk> = chunks.iter().collect();
    let options = ChunkSizeOptions { entry_chunk_multiplicator: None, chunk_overhead: None };
    let groups: Database<ChunkGroup> = Database::new();
    let combs = chunk_combinations(&mut c.chunk_graph, &ordered, &groups, &c.module_graph, options);
    assert!(combs.is_empty());
}
