[package]
name = "warp_json_rpc"
version = "0.1.0"
edition = "2021"
publish = false

[dependencies]
anyhow = "1"
futures = "0.3"
http = "0.2"
hyper = "0.13"
lazycell = "1"
log = "0.4"
serde = { version = "1", features = ["derive"] }
serde_json = "1"
warp = "0.2"
