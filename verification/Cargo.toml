[package]
name = "ops_mcp"
version = "0.1.0"
edition = "2021"
publish = false

[dependencies]
chrono = { version = "0.4", default-features = false, features = ["alloc"] }
rmcp = { version = "3.2", default-features = false, features = ["server", "macros", "transport-io", "schemars"] }
serde = { version = "1", features = ["derive"] }
tokio = { version = "1", default-features = false, features = ["fs", "macros", "rt-multi-thread", "io-std"] }
