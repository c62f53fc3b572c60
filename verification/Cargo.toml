[package]
name = "translation_api"
version = "0.1.0"
edition = "2021"
publish = false

[dependencies]
log = "0.4"
pretty_env_logger = "0.5"
serde = { version = "1", features = ["derive"] }
serde_json = "1"
thiserror = "1"
tokio = { version = "1", features = ["rt-multi-thread", "macros", "fs"] }
toml = "0.8"
walkdir = "2"
warp = { version = "0.3", default-features = false }
zip = { version = "0.6", default-features = false, features = ["deflate"] }

[dev-dependencies]
regex = "1"
