use rspack_chunks::chunk::{Chunk, ChunkGroup, ChunkGroupKind};
use rspack_chunks::chunk_graph::{ChunkGraph, ChunkGraphChunk, ChunkSizeOptions};
use rspack_chunks::database::Database;
use rspack_chunks::module_graph::{Module, ModuleGraph, ModuleGraphModule, SourceType};
use rspack_chunks::runtime::{RuntimeGlobal, RuntimeGlobals};
use std::cmp::Ordering;

fn chunk(ukey: u64, groups: &[u64]) -> Chunk {
    Chunk {
        ukey,
        name: None,
        id_name_hints: Vec::new(),
        runtime: Vec::new(),
        groups: groups.to_vec(),
        prevent_integration: false,
    }
}

fn group(ukey: u64, kind: ChunkGroupKind, chunks: &[u64], parents: &[u64]) -> ChunkGroup {
    ChunkGroup {
        ukey,
        kind,
        chunks: chunks.to_vec(),
        parents: parents.to_vec(),
        runtime_chunk: None,
        entry_point_chunk: None,
    }
}

fn module(id: &str, types: &[(SourceType, u64)]) -> Module {
    Module {
        identifier: id.to_string(),
        source_types: types.iter().map(|t| t.0).collect(),
        sizes: types.iter().map(|t| t.1).collect(),
    }
}

fn module_graph(modules: Vec<Module>) -> ModuleGraph {
    let module_graph_modules = modules
        .iter()
        .map(|m| ModuleGraphModule { module_identifier: m.identifier.clone() })
        .collect();
    ModuleGraph { modules, module_graph_modules }
}

fn graph_with(chunks: &[u64], modules: &[&str]) -> ChunkGraph {
    let mut g = ChunkGraph::new();
    for c in chunks {
        g.add_chunk(*c);
    }
    for m in modules {
        g.add_module(m.to_string());
    }
    g
}

fn module_ids(g: &ChunkGraph, c: u64) -> Vec<String> {
    g.get_chunk_module_identifiers(&c).clone()
}

fn chunks_of_module(g: &ChunkGraph, m: &str) -> Vec<u64> {
    let i = g.module_identifiers.iter().position(|x| x == m).unwrap();
    g.chunk_graph_modules[i].chunks.clone()
}

fn entry_chunks_of_module(g: &ChunkGraph, m: &str) -> Vec<u64> {
    let i = g.module_identifiers.iter().position(|x| x == m).unwrap();
    g.chunk_graph_modules[i].entry_in_chunks.clone()
}

#[test]
fn add_chunk_twice_keeps_the_first_record() {
    let mut g = graph_with(&[1], &["a"]);
    g.connect_chunk_and_module(1, "a".to_string());
    g.add_chunk(1);
    assert_eq!(g.get_number_of_chunk_modules(&1), 1);
    g.add_chunk(2);
    assert_eq!(g.get_number_of_chunk_modules(&2), 0);
    assert_eq!(g.get_number_of_entry_modules(&2), 0);
}

#[test]
fn add_chunk_with_record_uses_it() {
    let mut g = graph_with(&[], &[]);
    let mut cgc = ChunkGraphChunk::new();
    cgc.modules.push("m".to_string());
    g.add_chunk_wit_chunk_graph_chunk(5, cgc);
    assert_eq!(module_ids(&g, 5), vec!["m".to_string()]);
}

#[test]
fn connect_and_disconnect_update_both_sides() {
    let mut g = graph_with(&[1, 2], &["a", "b"]);
    g.connect_chunk_and_module(1, "a".to_string());
    g.connect_chunk_and_module(2, "a".to_string());
    g.connect_chunk_and_module(1, "b".to_string());
    g.connect_chunk_and_module(1, "a".to_string());
    assert_eq!(module_ids(&g, 1), vec!["a".to_string(), "b".to_string()]);
    assert_eq!(chunks_of_module(&g, "a"), vec![1, 2]);
    g.disconnect_chunk_and_module(&1, "a".to_string());
    assert_eq!(module_ids(&g, 1), vec!["b".to_string()]);
    assert_eq!(chunks_of_module(&g, "a"), vec![2]);
    assert_eq!(g.get_number_of_chunk_modules(&1), 1);
}

#[test]
fn connect_then_disconnect_restores_the_relation() {
    let mut g = graph_with(&[1], &["a", "b"]);
    g.connect_chunk_and_module(1, "b".to_string());
    let before_modules = module_ids(&g, 1);
    let before_chunks = chunks_of_module(&g, "a");
    g.connect_chunk_and_module(1, "a".to_string());
    g.disconnect_chunk_and_module(&1, "a".to_string());
    assert_eq!(module_ids(&g, 1), before_modules);
    assert_eq!(chunks_of_module(&g, "a"), before_chunks);
}

#[test]
fn entry_modules_keep_insertion_order_and_move_to_end() {
    let mut g = graph_with(&[1], &["a", "b", "c"]);
    g.connect_chunk_and_entry_module(1, "a".to_string(), 10);
    g.connect_chunk_and_entry_module(1, "b".to_string(), 11);
    g.connect_chunk_and_entry_module(1, "c".to_string(), 12);
    g.connect_chunk_and_entry_module(1, "a".to_string(), 13);
    assert_eq!(
        g.get_chunk_entry_modules(&1),
        vec!["b".to_string(), "c".to_string(), "a".to_string()]
    );
    let with_groups = g.get_chunk_entry_modules_with_chunk_group_iterable(&1).clone();
    assert_eq!(with_groups[2], ("a".to_string(), 13));
    assert_eq!(g.get_number_of_entry_modules(&1), 3);
    assert_eq!(entry_chunks_of_module(&g, "b"), vec![1]);
    g.disconnect_chunk_and_entry_module(1, "b".to_string());
    assert_eq!(g.get_chunk_entry_modules(&1), vec!["c".to_string(), "a".to_string()]);
    assert!(entry_chunks_of_module(&g, "b").is_empty());
    assert_eq!(entry_chunks_of_module(&g, "a"), vec![1]);
}

#[test]
fn runtime_requirements_accumulate() {
    let mut g = graph_with(&[1], &[]);
    g.add_chunk_runtime_requirements(&1, RuntimeGlobals::from_global(RuntimeGlobal::Require));
    g.add_chunk_runtime_requirements(&1, RuntimeGlobals::from_global(RuntimeGlobal::PublicPath));
    let r = *g.get_chunk_runtime_requirements(&1);
    assert!(r.contains(RuntimeGlobals::from_global(RuntimeGlobal::Require)));
    assert!(r.contains(RuntimeGlobals::from_global(RuntimeGlobal::PublicPath)));
    assert!(!r.contains(RuntimeGlobals::from_global(RuntimeGlobal::BaseUri)));
    g.add_tree_runtime_requirements(&1, RuntimeGlobals::from_global(RuntimeGlobal::BaseUri));
    assert!(g
        .get_tree_runtime_requirements(&1)
        .contains(RuntimeGlobals::from_global(RuntimeGlobal::BaseUri)));
    assert_eq!(RuntimeGlobals::empty().bits, 0);
}

#[test]
fn runtime_modules_keep_their_order() {
    let mut g = graph_with(&[1], &["r1", "r2"]);
    g.connect_chunk_and_runtime_module(1, "r2".to_string());
    g.connect_chunk_and_runtime_module(1, "r1".to_string());
    g.connect_chunk_and_runtime_module(1, "r2".to_string());
    assert_eq!(
        g.get_chunk_runtime_modules_in_order(&1).clone(),
        vec!["r2".to_string(), "r1".to_string()]
    );
    assert_eq!(g.get_chunk_runtime_modules_iterable(&1).len(), 2);
}

#[test]
fn chunk_modules_come_from_the_module_graph() {
    let mut g = graph_with(&[1], &["a", "b", "missing"]);
    for m in ["a", "b", "missing"] {
        g.connect_chunk_and_module(1, m.to_string());
    }
    let mg = module_graph(vec![
        module("a", &[(SourceType::JavaScript, 100), (SourceType::Css, 7)]),
        module("b", &[(SourceType::Css, 20)]),
    ]);
    let modules = g.get_chunk_modules(&1, &mg);
    assert_eq!(modules.len(), 2);
    let js = g.get_chunk_modules_iterable_by_source_type(&1, SourceType::JavaScript, &mg);
    assert_eq!(js.len(), 1);
    assert_eq!(js[0].identifier, "a");
    let css = g.get_chunk_modules_by_source_type(&1, SourceType::Css, &mg);
    assert_eq!(css.len(), 2);
    let size = g.get_modules_size(vec!["a".to_string(), "b".to_string(), "missing".to_string()], &mg);
    assert_eq!(size, 127);
}

#[test]
fn chunk_size_adds_overhead_and_multiplicator() {
    let mut g = graph_with(&[1, 2], &["a", "b"]);
    g.connect_chunk_and_module(1, "a".to_string());
    g.connect_chunk_and_module(2, "a".to_string());
    g.connect_chunk_and_module(2, "b".to_string());
    let mg = module_graph(vec![
        module("a", &[(SourceType::JavaScript, 100)]),
        module("b", &[(SourceType::JavaScript, 50)]),
    ]);
    let mut groups = Database::new();
    groups.insert(7, group(7, ChunkGroupKind::Entrypoint { initial: true }, &[1], &[]));
    let c1 = chunk(1, &[7]);
    let c2 = chunk(2, &[]);
    let defaults = ChunkSizeOptions { entry_chunk_multiplicator: None, chunk_overhead: None };
    assert_eq!(g.get_chunk_size(&c1, defaults, &mg, &groups), 10000 + 100 + 10);
    assert_eq!(g.get_chunk_size(&c2, defaults, &mg, &groups), 10000 + 150 + 1);
    let custom = ChunkSizeOptions { entry_chunk_multiplicator: Some(3), chunk_overhead: Some(5) };
    assert_eq!(g.get_chunk_size(&c1, custom, &mg, &groups), 5 + 100 + 3);
    assert_eq!(g.get_integrated_chunk_size(&c1, &c2, &mg, defaults), 10000 + 10 + 150);
    assert_eq!(g.get_integrated_chunk_size(&c1, &c2, &mg, custom), 5 + 3 + 150);
}

#[test]
fn compare_chunks_by_module_count_then_identifiers() {
    let mut g = graph_with(&[1, 2, 3, 4], &["a", "B", "c", "d"]);
    g.connect_chunk_and_module(1, "a".to_string());
    g.connect_chunk_and_module(2, "a".to_string());
    g.connect_chunk_and_module(2, "c".to_string());
    g.connect_chunk_and_module(3, "B".to_string());
    g.connect_chunk_and_module(3, "a".to_string());
    g.connect_chunk_and_module(4, "d".to_string());
    let (c1, c2, c3, c4) = (chunk(1, &[]), chunk(2, &[]), chunk(3, &[]), chunk(4, &[]));
    assert_eq!(g.compare_chunks(&c2, &c1), Ordering::Greater);
    assert_eq!(g.compare_chunks(&c1, &c2), Ordering::Less);
    // [a, B] sorted case-insensitively is [a, B]; against [a, c]: "b" < "c".
    assert_eq!(g.compare_chunks(&c3, &c2), Ordering::Less);
    assert_eq!(g.compare_chunks(&c2, &c3), Ordering::Greater);
    assert_eq!(g.compare_chunks(&c1, &c4), Ordering::Less);
    assert_eq!(g.compare_chunks(&c1, &c1), Ordering::Equal);
    // c1 < c3 < c2, and so c1 < c2.
    assert_eq!(g.compare_chunks(&c1, &c3), Ordering::Less);
    assert_eq!(g.compare_chunks(&c3, &c2), Ordering::Less);
    assert_eq!(g.compare_chunks(&c1, &c2), Ordering::Less);
}

#[test]
fn ordered_chunk_modules_are_sorted_by_identifier() {
    let mut g = graph_with(&[1], &["c", "a", "b"]);
    for m in ["c", "a", "b"] {
        g.connect_chunk_and_module(1, m.to_string());
    }
    let mg = module_graph(vec![module("b", &[]), module("c", &[]), module("a", &[])]);
    let ordered = g.get_ordered_chunk_modules(&1, &mg);
    let ids: Vec<&str> = ordered.iter().map(|m| m.identifier.as_str()).collect();
    assert_eq!(ids, vec!["a", "b", "c"]);
}

#[test]
fn chunks_without_runtime_or_entries_can_be_integrated() {
    let g = graph_with(&[1, 2], &[]);
    let groups: Database<ChunkGroup> = Database::new();
    let a = chunk(1, &[]);
    let b = chunk(2, &[]);
    assert!(g.can_chunks_be_integrated(&groups, &a, &b));
    let mut p = chunk(2, &[]);
    p.prevent_integration = true;
    assert!(!g.can_chunks_be_integrated(&groups, &a, &p));
}

#[test]
fn chunks_with_entries_cannot_be_integrated() {
    let mut g = graph_with(&[1, 2], &["e"]);
    g.connect_chunk_and_entry_module(2, "e".to_string(), 9);
    let groups: Database<ChunkGroup> = Database::new();
    assert!(!g.can_chunks_be_integrated(&groups, &chunk(1, &[]), &chunk(2, &[])));
}

#[test]
fn runtime_chunk_integrates_only_with_always_loaded_chunks() {
    let g = graph_with(&[1, 2, 3], &[]);
    let mut groups = Database::new();
    let mut entry = group(10, ChunkGroupKind::Entrypoint { initial: true }, &[1, 2], &[]);
    entry.runtime_chunk = Some(1);
    groups.insert(10, entry);
    groups.insert(11, group(11, ChunkGroupKind::Normal, &[3], &[10]));
    let runtime = chunk(1, &[10]);
    let same_group = chunk(2, &[10]);
    let lazy = chunk(3, &[11]);
    // Chunk 2 is only in group 10, which holds chunk 1: chunk 1 is always there.
    assert!(g.is_available_chunk(&groups, &runtime, &same_group));
    assert!(g.can_chunks_be_integrated(&groups, &runtime, &same_group));
    // From group 11 the walk reaches group 10, which holds chunk 1.
    assert!(g.is_available_chunk(&groups, &runtime, &lazy));
    // Chunk 3 is not in the initial group 10.
    assert!(!g.is_available_chunk(&groups, &lazy, &same_group));
}

#[test]
fn integrate_chunks_moves_modules_names_and_groups() {
    let mut g = graph_with(&[1, 2], &["a", "b", "c"]);
    g.connect_chunk_and_module(1, "a".to_string());
    g.connect_chunk_and_module(2, "b".to_string());
    g.connect_chunk_and_module(2, "c".to_string());
    let mg = module_graph(vec![module("a", &[]), module("b", &[])]);
    let mut groups = Database::new();
    groups.insert(5, group(5, ChunkGroupKind::Normal, &[2], &[]));
    let mut a = chunk(1, &[]);
    a.name = Some("main".to_string());
    a.id_name_hints = vec!["x".to_string()];
    a.runtime = vec!["r1".to_string()];
    let mut b = chunk(2, &[5]);
    b.name = Some("vendorsx".to_string());
    b.id_name_hints = vec!["y".to_string()];
    b.runtime = vec!["r1".to_string(), "r2".to_string()];
    g.integrate_chunks(&mg, &mut groups, &mut a, &mut b);
    assert_eq!(a.name, Some("main".to_string()));
    assert_eq!(a.id_name_hints, vec!["x".to_string(), "y".to_string()]);
    assert_eq!(a.runtime, vec!["r1".to_string(), "r2".to_string()]);
    let mut mods = module_ids(&g, 1);
    mods.sort();
    assert_eq!(mods, vec!["a".to_string(), "b".to_string()]);
    // "c" is not in the module graph: it stays with chunk 2.
    assert_eq!(module_ids(&g, 2), vec!["c".to_string()]);
    // The module records follow.
    assert_eq!(chunks_of_module(&g, "b"), vec![1]);
    assert_eq!(chunks_of_module(&g, "c"), vec![2]);
    assert_eq!(a.groups, vec![5]);
    assert!(b.groups.is_empty());
    assert_eq!(groups.get(5).unwrap().chunks, vec![1]);
}

#[test]
fn integrate_chunks_takes_the_shorter_name() {
    let mut g = graph_with(&[1, 2], &[]);
    let mg = module_graph(vec![]);
    let mut groups: Database<ChunkGroup> = Database::new();
    let mut a = chunk(1, &[]);
    a.name = Some("longer".to_string());
    let mut b = chunk(2, &[]);
    b.name = Some("short".to_string());
    g.integrate_chunks(&mg, &mut groups, &mut a, &mut b);
    assert_eq!(a.name, Some("short".to_string()));
    assert_eq!(b.name, None);
}

#[test]
fn disconnect_chunk_drops_modules_and_groups() {
    let mut g = graph_with(&[1], &["a"]);
    g.connect_chunk_and_module(1, "a".to_string());
    let mut groups = Database::new();
    groups.insert(3, group(3, ChunkGroupKind::Normal, &[1, 4], &[]));
    let mut c = chunk(1, &[3]);
    g.disconnect_chunk(&mut c, &mut groups);
    assert_eq!(g.get_number_of_chunk_modules(&1), 0);
    assert!(chunks_of_module(&g, "a").is_empty());
    assert!(c.groups.is_empty());
    assert_eq!(groups.get(3).unwrap().chunks, vec![4]);
}

#[test]
fn entry_dependent_chunks_are_found() {
    let mut g = graph_with(&[1, 2, 3, 4], &["e"]);
    g.connect_chunk_and_entry_module(1, "e".to_string(), 20);
    let mut groups = Database::new();
    let mut entry = group(20, ChunkGroupKind::Entrypoint { initial: true }, &[1, 2, 3, 4], &[]);
    entry.entry_point_chunk = Some(1);
    entry.runtime_chunk = Some(4);
    groups.insert(20, entry);
    let mut chunks = Database::new();
    chunks.insert(1, chunk(1, &[20]));
    chunks.insert(2, chunk(2, &[20]));
    chunks.insert(3, chunk(3, &[20]));
    chunks.insert(4, chunk(4, &[20]));
    assert!(g.has_chunk_entry_dependent_chunks(&1, &groups));
    let mut deps = g.get_chunk_entry_dependent_chunks_iterable(&2, &chunks, &groups);
    deps.sort();
    // Not chunk 2 itself, not the entry point chunk 1, not the runtime chunk 4.
    assert_eq!(deps, vec![3]);
}

#[test]
fn entry_dependents_need_other_chunks() {
    let mut g = graph_with(&[1], &["e"]);
    g.connect_chunk_and_entry_module(1, "e".to_string(), 20);
    let mut groups = Database::new();
    groups.insert(20, group(20, ChunkGroupKind::Entrypoint { initial: true }, &[1], &[]));
    assert!(!g.has_chunk_entry_dependent_chunks(&1, &groups));
}

#[test]
fn integration_answer_does_not_depend_on_the_order() {
    let mut g = graph_with(&[1, 2, 3], &["e"]);
    g.connect_chunk_and_entry_module(3, "e".to_string(), 9);
    let mut groups = Database::new();
    let mut entry = group(10, ChunkGroupKind::Entrypoint { initial: true }, &[1, 2], &[]);
    entry.runtime_chunk = Some(1);
    groups.insert(10, entry);
    let runtime = chunk(1, &[10]);
    let same_group = chunk(2, &[10]);
    let with_entry = chunk(3, &[]);
    assert!(g.can_chunks_be_integrated(&groups, &runtime, &same_group));
    assert!(g.can_chunks_be_integrated(&groups, &same_group, &runtime));
    let plain = chunk(2, &[]);
    assert!(!g.can_chunks_be_integrated(&groups, &plain, &with_entry));
    assert!(!g.can_chunks_be_integrated(&groups, &with_entry, &plain));
}
