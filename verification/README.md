# rspack_chunks

Chunk-graph bookkeeping for a JavaScript bundler, written in Verus with its
behaviour stated in contracts and proved.

## Layout

- `src/` — the verified library.
  - `chunk_graph.rs`, `chunk_modules.rs`, `chunk_order.rs`,
    `chunk_availability.rs`, `chunk_integration.rs`, `chunk_disconnect.rs`,
    `chunk_entries.rs`: which chunks hold which modules, entry modules,
    runtime requirements and runtime modules; sizes of chunks; the chunk
    order; whether and how two chunks are merged; taking a chunk out.
  - `graph_consistency.rs`: the laws that every operation on the
    chunk–module relation keeps both sides of the graph in step.
  - `lazy_bucket_sorted_set.rs`, `chunk_combination.rs`,
    `limit_chunk_count.rs`: the set that hands out the best pair of chunks
    to merge first, and the pass that looks at every pair of chunks when
    there are too many.
  - `api_scanner.rs`, `json.rs`, `runtime.rs`: what a script's references
    to the bundler's API identifiers are replaced by.
  - `comparators.rs`, `collections.rs`, `database.rs`, `module_graph.rs`,
    `chunk.rs`: comparisons of identifiers and numbers, small set and map
    helpers over vectors, and the data the chunk graph reads.
- `tests/` — tests of the library on concrete values.
- `app/` — what stays outside the verified library: the swc visitor that
  feeds the API scanner, and the floating-point size of a chunk's modules.

Calls into outside crates (itertools' `sorted_by`, serde_json's
`to_string`, std's `to_lowercase` and `sort_unstable_by_key`) go through
small wrappers whose contracts say what those functions give.
