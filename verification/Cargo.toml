[package]
name = "stellarconduit-core"
version = "0.1.0"
edition = "2021"
publish = false

[dependencies]
async-trait = "0.1"
bloomfilter = "1"
ed25519-dalek = { version = "2", features = ["rand_core"] }
futures = "0.3"
log = "0.4"
rand = "0.8"
rmp-serde = "1"
rusqlite = { version = "*", features = ["bundled"] }
serde = { version = "1", features = ["derive"] }
sha2 = "0.10"
thiserror = "1"
tokio = { version = "1", features = ["full"] }
tokio-rusqlite = "0.5"
uuid = "1"
