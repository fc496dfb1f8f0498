[package]
name = "notes_rpc"
version = "0.1.0"
edition = "2021"
publish = false

[dependencies]
uuid = { version = "1", features = ["v4"] }
serde = { version = "1", features = ["derive"] }
serde_json = "1"
jsonrpc-core = "18"
jsonrpc-http-server = "18"
