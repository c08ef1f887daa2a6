[package]
name = "eip8025"
version = "0.1.0"
edition = "2021"
publish = false

[dependencies]
anyhow = "1"
async-trait = "0.1"
axum = "0.7"
bytes = "1"
ethereum_ssz = "*"
ethereum_ssz_derive = "*"
fnv = "1"
futures = "0.3"
hex = "0.4"
mockito = "1"
parking_lot = "0.12"
rayon = "1"
reqwest = { version = "0.12", default-features = false, features = ["json", "stream"] }
reqwest-eventsource = "0.6"
serde = { version = "1", features = ["derive"] }
serde_json = "1"
ssz_types = "*"
tempfile = "3"
tokio = { version = "1", features = ["sync", "time", "rt", "macros", "net"] }
tokio-stream = { version = "0.1", features = ["sync"] }
tracing = "0.1"
tree_hash = "*"
tree_hash_derive = "*"
typenum = "1"
url = "2"
warp = "0.3"
