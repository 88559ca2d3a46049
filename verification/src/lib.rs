//! Chunk-graph bookkeeping, comparators, the scanner of a script's
//! references to the bundler's API, and the data structures for limiting
//! the number of chunks of a JavaScript bundler, with their behaviour
//! stated and proved.

pub mod api_scanner;
pub mod chunk;
pub mod chunk_availability;
pub mod chunk_combination;
pub mod chunk_disconnect;
pub mod chunk_entries;
pub mod chunk_graph;
pub mod chunk_integration;
pub mod chunk_modules;
pub mod chunk_order;
pub mod collections;
pub mod comparators;
pub mod database;
pub mod finish_update;
pub mod graph_consistency;
pub mod json;
pub mod lazy_bucket_sorted_set;
pub mod limit_chunk_count;
pub mod module_graph;
pub mod runtime;
