[package]
name = "artifex_mcp_server"
version = "0.1.0"
edition = "2021"
publish = false

[dependencies]
anyhow = "=1.0.104"
axum = "=0.8.9"
cargo_metadata = "=0.23.1"
clap = { version = "=4.6.7", features = ["derive"] }
rmcp = { version = "=3.8.0", features = ["server", "macros", "transport-io", "transport-streamable-http-server"] }
serde = { version = "=1.0.229", features = ["derive"] }
thiserror = "=2.0.21"
tokio = { version = "=1.54.1", features = ["full"] }
toml = "=0.9.12"
tracing = "=0.1.44"
tracing-subscriber = { version = "=0.3.23", features = ["env-filter"] }
xshell = "=0.2.7"
