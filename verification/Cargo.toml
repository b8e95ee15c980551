[package]
name = "insight"
version = "0.1.0"
edition = "2021"
publish = false

[dependencies]
libp2p = { version = "=0.53.2", default-features = false, features = ["secp256k1", "ed25519", "gossipsub", "kad", "mdns", "identify", "request-response", "tcp", "noise", "yamux", "async-std", "macros"] }
sha2 = "0.10"
serde = { version = "1", features = ["derive"] }
serde_json = "1"
serde-big-array = "0.5"
rand = "0.8"
crossbeam-channel = "0.5"
futures = "0.3"
async-std = "1"
async-trait = "0.1"
anyhow = "1"
log = "0.4"
