[package]
name = "convex_bridge"
version = "0.1.0"
edition = "2021"
publish = false

[dependencies]
convex = "*"
convex_sync_types = "*"
godot = "*"
serde_json = "*"
tokio = { version = "*", features = ["sync"] }
