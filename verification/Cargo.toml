[package]
name = "github-actions-local-cache"
version = "0.1.0"
edition = "2021"
publish = false

[dependencies]
globset = "0.4"
sha2 = "0.10"
hex = "0.4"
time = { version = "0.3", features = ["parsing", "formatting"] }
uuid = { version = "1", features = ["v4"] }
tar = "0.4"
zstd = "0.13"
walkdir = "2"
filetime = "0.2"
tempfile = "3"
libc = "0.2"
serde = { version = "1", features = ["derive"] }
serde_json = "1"
thiserror = "2"
