//! Host-side bookkeeping of a V4.1 inference daemon: paged caches, request
//! leases, layer sequencing, device budgets and benchmark replay plans.
pub mod attention_binding;
pub mod attention_output;
pub mod attention_query;
pub mod backbone_cache;
pub mod block;
pub mod budget;
pub mod cache_phase;
pub mod compressor;
pub mod device;
pub mod device_memory;
pub mod draft_window;
pub mod engram;
pub mod error;
pub mod execution;
pub mod graphs;
pub mod lane;
pub mod page_pool;
pub mod replay;
pub mod router;
pub mod serve_options;
pub mod shared_ffn;
pub mod source_cache;
pub mod tally;
pub mod text;
pub mod wave_state;
pub mod window;
