[package]
name = "codex_local_sync"
version = "0.1.0"
edition = "2021"
publish = false

[dependencies]
serde = { version = "1", features = ["derive"] }
serde_json = "1"
toml = "*"
toml_edit = "*"
sha2 = "0.10"
hex = "0.4"
chrono = "0.4"
uuid = { version = "1", features = ["v4"] }
dirs = "*"
sysinfo = "*"
fs2 = "0.4"
walkdir = "2"
rusqlite = { version = "*", features = ["bundled"] }
notify = "*"
libc = "0.2"

[dev-dependencies]
tempfile = "3"
