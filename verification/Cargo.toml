[package]
name = "codex-tools-mcp"
version = "0.1.0"
edition = "2021"
publish = false

[dependencies]
serde_json = "1.0.154"
log = "0.4.35"
