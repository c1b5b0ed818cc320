[package]
name = "deploycli"
version = "0.1.0"
edition = "2021"
publish = false

[dependencies]
md5 = "=0.7.0"
zip = { version = "=2.6.1", default-features = false, features = ["zstd"] }
toml = "=0.8.23"
uuid = { version = "=1.29.0", features = ["v4"] }
serde = { version = "=1.0.229", features = ["derive"] }
serde_json = "=1.0.154"
anyhow = "=1.0.104"
thiserror = "=2.0.21"
clap = { version = "=4.6.7", features = ["derive"] }
colored = "=3.1.1"
log = "=0.4.34"
reqwest = { version = "=0.12.28", features = ["blocking", "multipart", "json"] }
tokio = { version = "=1.54.1", features = ["macros", "rt-multi-thread", "fs"] }
salvo = "=1.0.1"
polodb_core = "=4.4.2"
clia-tracing-config = "=0.2.7"
