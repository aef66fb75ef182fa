# slot_stream

Parts of a validator that streams account updates, entries and traces to other processes, written in
Rust and verified with Verus.

- `src/` is the library. Its functions have contracts that Verus proves; what is trusted is listed below.
- `app/` is the program around it: a client that prints the account updates of a shared-memory ring,
  and the threads, sockets, files and mapped memory that run the library's decisions.
- `tests/` runs the library on concrete values.

## What the library holds

| Module | Contents |
| --- | --- |
| `shm`, `shm_segment`, `shm_laws`, `shm_session` | a ring of account updates, its segment, and what writers and readers can rely on together |
| `plugin`, `key_filter` | the filter of the account keys to write, and its commands |
| `account_map` | the map that a reader of the ring keeps up to date |
| `entry_cache`, `entry_cache_laws` | entries of recent slots, with the least recently used slot evicted |
| `streaming_deserializer`, `streaming_laws` | entries parsed as their shreds arrive, in any order |
| `account_locks`, `account_locks_laws`, `lock_maps` | read and write locks on accounts |
| `shredstream` | registration with a block engine: authentication, heartbeats, health and restarts |
| `slot_latency_tracker` | latencies of a slot's stages |
| `shred_arrival_store`, `dataset_tracking`, `fetch_stage_tracer`, `window_service_tracer` | traces and their rows |
| `table`, `parquet_writer` | tables of such rows, and when they go to which file |
| `trace` | the steps of a ring reader, of which the last are kept |
| `bytes`, `text`, `base58`, `entry`, `ordered` | what the others are made of |

Proof functions whose names start with `law_` state what holds of several calls together.

## What is trusted

Calls into other crates stand in small functions marked `external_body`, next to a comment that says
what their contract claims: `account_map`, `key_filter`, `lock_maps`, `base58`, `entry`, `table`,
`streaming_deserializer::read_entry`, three functions in `shredstream::auth`, and two in `text` for
the standard library. Everything else is proved.

Times and clock readings, channels and sockets are arguments and results of the library's functions;
the library itself keeps no clock and does no I/O.
