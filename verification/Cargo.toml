[package]
name = "kestrel"
version = "0.1.0"
edition = "2021"
publish = false

[dependencies]
anyhow = "=1.0.104"
bcs = "=0.1.6"
blst = "=0.3.17"
ed25519-dalek = "=2.2.0"
futures = "=0.3.34"
hex = "=0.4.3"
libp2p = { version = "=0.57.1", default-features = false, features = ["cbor", "gossipsub", "identify", "macros", "mdns", "noise", "request-response", "tcp", "tokio", "yamux", "ed25519"] }
rand = "=0.8.8"
rayon = "=1.12.0"
reed-solomon-erasure = "=6.0.0"
serde = { version = "=1.0.229", features = ["derive"] }
serde_json = "=1.0.154"
sha2 = "=0.10.9"
thiserror = "=2.0.21"
tokio = { version = "=1.54.1", features = ["io-util", "macros", "net", "rt-multi-thread", "signal", "sync", "time"] }
tracing = "=0.1.44"
tracing-subscriber = { version = "=0.3.23", default-features = false, features = ["env-filter", "fmt", "json", "std"] }
