[package]
name = "opencontext-core"
version = "0.1.0"
edition = "2021"
publish = false

[dependencies]
pulldown-cmark = { version = "*", default-features = false }
regex = "1"
urlencoding = "2"
chrono = "0.4"
dirs = "*"
parking_lot = "0.12"
rusqlite = { version = "*", features = ["bundled"] }
serde = { version = "1", features = ["derive"] }
serde_json = "1"
toml = "*"
thiserror = "*"
log = "0.4"
tokio = { version = "1", features = ["sync", "time", "rt", "macros"] }
futures = "0.3"
reqwest = { version = "*", default-features = false, features = ["json"] }
arrow-array = "*"
arrow-schema = "*"
