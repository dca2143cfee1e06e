[package]
name = "repolith"
version = "0.1.0"
edition = "2021"
publish = false

[dependencies]
anyhow = "1"
async-trait = "0.1"
clap = { version = "4", features = ["derive", "env"] }
comfy-table = "7"
dirs = "6"
futures = "0.3"
hex = "0.4"
ignore = "0.4"
neo4rs = "0.8"
nix = { version = "0.30", features = ["signal", "process"] }
num_cpus = "1"
rusqlite = { version = "*", features = ["bundled"] }
semver = "1"
serde = { version = "1", features = ["derive"] }
serde_json = "1"
sha2 = "0.10"
thiserror = "2"
tokio = { version = "1", features = ["fs", "io-util", "macros", "process", "rt-multi-thread", "signal", "sync", "time"] }
tokio-util = "0.7"
toml = "0.9"
tracing = "0.1"
tracing-subscriber = { version = "0.3", features = ["env-filter"] }
url = "2"
