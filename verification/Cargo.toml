[package]
name = "hackerland"
version = "0.1.0"
edition = "2021"
publish = false

[dependencies]
smithay-client-toolkit = "0.16"
gtk4 = "0.7"
gtk4-layer-shell = "0.2"
chrono = "0.4"
sysinfo = "0.29"
tokio = { version = "1", features = ["net", "io-util", "rt", "time", "macros"] }
toml = "0.8"
serde = { version = "1", features = ["derive"] }
dirs = "5"
anyhow = "1"
