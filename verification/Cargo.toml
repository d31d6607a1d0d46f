[package]
name = "aetheris"
version = "0.1.0"
edition = "2021"
publish = false

[dependencies]
chrono = { version = "0.4", features = ["serde"] }
uuid = { version = "1", features = ["v4", "serde"] }
sha2 = "0.10"
hex = "0.4"
md5 = "0.7"
base64 = "0.22"
rand = "0.8"
petgraph = "0.6"
num_cpus = "1"
regex = "1"
hashlink = "0.9"
serde = { version = "1", features = ["derive"] }
serde_json = "1"
json5 = "0.4"
bincode = "1"
dirs = "5"
dotenvy = "0.15"
serde_yaml = "0.9"
toml = "0.8"
thiserror = "1"
async-trait = "0.1"
tokio = { version = "1", features = ["full"] }
tempfile = "3"
reqwest = { version = "0.12", default-features = false, features = ["json"] }
