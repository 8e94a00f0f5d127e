[package]
name = "sample_graph"
version = "0.1.0"
edition = "2021"
publish = false

[dependencies]
petgraph = "0.6"
axum = "0.6"
http = "0.2"
tokio = { version = "1", features = ["macros", "rt-multi-thread"] }
tower = { version = "0.4", features = ["buffer", "limit", "util"] }
tower-http = { version = "0.4", features = ["cors", "trace"] }
clap = { version = "4", features = ["derive"] }
serde = { version = "1", features = ["derive"] }
serde_json = "1"
semver = "1"
redis = "0.23"
genius-rust = "*"
