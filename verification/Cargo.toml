[package]
name = "musify"
version = "0.1.0"
edition = "2021"
publish = false

[dependencies]
libp2p = { version = "0.57", default-features = false, features = ["tokio", "tcp", "noise", "yamux", "mdns", "kad", "gossipsub", "request-response", "macros"] }
tokio = { version = "1", features = ["full"] }
futures = "0.3"
async-trait = "0.1"
once_cell = "1"
