[package]
name = "p2plane"
version = "0.1.0"
edition = "2021"
publish = false

[dependencies]
libp2p = { version = "*", default-features = false, features = ["identify", "kad", "request-response", "cbor", "tcp", "noise", "yamux", "tokio", "macros", "ed25519"] }
libp2p-identity = { version = "*", features = ["peerid", "ed25519", "rand"] }
multiaddr = "*"
serde = { version = "*", features = ["derive"] }
serde_json = "*"
tokio = { version = "*", features = ["rt", "macros", "time", "sync"] }
