//! Parts of a validator that streams account updates, entries and traces to other processes.
//!
//! - `shm`, `shm_segment`, `plugin`: a ring of account updates in shared memory, its segment, and
//!   the plugin that filters the updates.
//! - `entry_cache`, `streaming_deserializer`: entries of recent slots, parsed as their shreds
//!   arrive.
//! - `account_locks`: locks on the accounts of running transactions.
//! - `shredstream`: the registration with a block engine that sends shreds.
//! - `slot_latency_tracker`, `shred_arrival_store`, `dataset_tracking`, `fetch_stage_tracer`,
//!   `window_service_tracer`: traces, and the tables that `parquet_writer` makes of them.
//! - Modules whose names end in `laws`, and `shm_session`: what holds of all inputs and of several
//!   calls together.

pub mod account_locks;
pub mod account_locks_laws;
pub mod account_map;
pub mod base58;
pub mod bytes;
pub mod dataset_tracking;
pub mod entry;
pub mod entry_cache;
pub mod entry_cache_laws;
pub mod fetch_stage_tracer;
pub mod key_filter;
pub mod lock_maps;
pub mod ordered;
pub mod parquet_writer;
pub mod plugin;
pub mod plugin_laws;
pub mod shm;
pub mod shm_laws;
pub mod shm_layout_laws;
pub mod shm_segment;
pub mod shm_session;
pub mod shred_arrival_laws;
pub mod shred_arrival_store;
pub mod shredstream;
pub mod slot_latency_laws;
pub mod slot_latency_tracker;
pub mod streaming_deserializer;
pub mod streaming_laws;
pub mod streaming_time_laws;
pub mod table;
pub mod table_laws;
pub mod text;
pub mod text_laws;
pub mod trace;
pub mod window_service_tracer;
pub mod writer_laws;
