[package]
name = "lila-openingexplorer"
version = "0.1.0"
edition = "2021"
publish = false

[dependencies]
sha1 = "=0.11.0"
fastrand = "=2.5.0"
btoi = "=0.5.0"
shakmaty = { version = "=0.29.4", features = ["variant"] }
serde = { version = "=1.0.229", features = ["derive"] }
serde_json = "=1.0.154"
serde_with = "=3.24.0"
clap = { version = "=4.6.7", features = ["derive", "env"] }
tokio = { version = "=1.54.1", features = ["full"] }
axum = "=0.8.9"
rocksdb = "=0.25.0"
reqwest = { version = "=0.13.5", features = ["json", "stream"] }
futures-util = "=0.3.34"
log = "=0.4.35"
env_logger = "=0.11.11"
tower-http = { version = "=0.7.1", features = ["set-header"] }
