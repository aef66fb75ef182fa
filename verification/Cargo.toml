[package]
name = "slot_stream"
version = "0.1.0"
edition = "2021"
publish = false

[dependencies]
ahash = "=0.8.12"
anyhow = "=1.0.104"
arc-swap = "=1.9.3"
arrow = { version = "=60.1.0", default-features = false }
chrono = { version = "=0.4.45", default-features = false, features = ["clock"] }
clap = { version = "=4.6.7", features = ["derive"] }
crossbeam-channel = "=0.5.17"
dashmap = "=6.2.1"
fastbloom = "=0.17.0"
gxhash = "=2.3.1"
libc = "=0.2.191"
log = "=0.4.35"
memmap2 = "=0.9.12"
nix = { version = "=0.31.3", features = ["fs", "mman"] }
parquet = { version = "=60.1.0", default-features = false, features = ["arrow", "snap"] }
prost = "=0.13.5"
serde_json = "=1.0.154"
smallvec = "=1.16.4"
solana-hash = { version = "=4.7.0", features = ["atomic", "decode"] }
solana-keypair = "=4.0.0"
solana-message = "=6.0.0"
solana-pubkey = "=4.4.0"
solana-signature = "=3.6.0"
solana-signer = "=4.0.0"
solana-transaction = { version = "=6.0.0", features = ["wincode"] }
solana-transaction-error = "=4.1.0"
thiserror = "=2.0.21"
tokio = { version = "=1.54.1", features = ["rt-multi-thread", "time"] }
tonic = { version = "=0.12.3", features = ["tls"] }
wincode = "=0.6.3"
