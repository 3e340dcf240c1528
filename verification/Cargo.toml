[package]
name = "chrisomatic"
version = "0.1.0"
edition = "2021"
publish = false

[dependencies]
petgraph = "=0.8.3"
base64 = "=0.22.1"
reqwest = { version = "=0.12.28", default-features = false }
url = "=2.5.8"
nonempty = "*"
tokio = { version = "1", features = ["rt", "macros", "fs"] }
tokio-stream = { version = "0.1", features = ["fs"] }
futures = "0.3"
futures-lite = "2"
futures-concurrency = "7"
async-stream = "0.3"
clap = { version = "4", features = ["derive"] }
color-eyre = "0.6"
fs-err = { version = "3", features = ["tokio"] }
indicatif = "0.17"
owo-colors = "4"
which = "8"
serde = { version = "1", features = ["derive"] }
serde_json = "1"
toml = "0.9"
thiserror = "2"
