[package]
name = "minerp"
version = "0.1.0"
edition = "2021"
publish = false

[dependencies]
anyhow = "1"
bincode = "1.3"
env_logger = "0.9"
iced = { version = "0.3", default-features = false, features = ["glow"] }
lazy_static = "1.4"
log = "0.4"
rand = "0.8"
rustls-pemfile = "1.0"
serde = { version = "1", features = ["derive"] }
serde_json = "1"
tokio = { version = "1", features = ["io-util", "macros", "net", "rt-multi-thread", "sync"] }
tokio-rustls = "0.23"
warp = "0.3"
webpki-roots = "0.22"
