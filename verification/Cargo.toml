[package]
name = "z3rm"
version = "0.1.0"
edition = "2021"
publish = false

[dependencies]
alacritty_terminal = "=0.26.0"
anyhow = "1"
base64 = "=0.22.1"
dirs = "=7.0.0"
flate2 = "=1.1.10"
lru = "=0.19.0"
nanoid = "0.4"
portable-pty = "=0.9.0"
regex = "=1.13.1"
rusqlite = { version = "0.32", features = ["bundled"] }
semver = "=1.0.28"
serde = { version = "1", features = ["derive"] }
serde_json = "1"
sha2 = "=0.10.9"
smallvec = "=1.16.4"
tar = "0.4"
tempfile = "3"
tokio = { version = "1", features = ["rt-multi-thread", "process", "net", "time", "io-util", "sync", "macros"] }
which = "=8.0.6"
zstd = "=0.13.4"
