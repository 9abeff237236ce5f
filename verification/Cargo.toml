[package]
name = "tool_calling_json"
version = "0.1.0"
edition = "2021"
publish = false

[dependencies]
serde = { version = "1", features = ["derive"] }
serde_json = { version = "1", features = ["raw_value"] }
anyhow = "1"
uuid = { version = "1", features = ["v4"] }
