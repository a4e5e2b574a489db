[package]
name = "hash_graph"
version = "0.1.0"
edition = "2021"
publish = false

[dependencies]
serde_json = "1"
serde = { version = "1", features = ["derive"] }
uuid = { version = "1", features = ["v4"] }
tokio-postgres = { version = "0.7", features = ["with-uuid-1"] }
error-stack = "0.3"
async-trait = "0.1"
utoipa = "3"
