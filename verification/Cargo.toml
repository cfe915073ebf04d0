[package]
name = "windbg-mcp-rs"
version = "0.1.0"
edition = "2021"
publish = false

[dependencies]
axum = "=0.8.9"
rmcp = { version = "=1.8.0", features = ["server", "transport-streamable-http-server"] }
serde = { version = "=1.0.229", features = ["derive"] }
serde_json = "=1.0.154"
thiserror = "=2.0.21"
tokio = { version = "=1.54.1", features = ["full"] }
tokio-util = "=0.7.20"
windows = { version = "=0.61.3", features = ["Win32_Foundation", "Win32_System_Diagnostics_Debug_Extensions"] }
