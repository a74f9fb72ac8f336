[package]
name = "aka_lib"
version = "0.1.0"
edition = "2021"
publish = false

[dependencies]
regex = "1"
colored = "2"
xxhash-rust = { version = "0.8", features = ["xxh3"] }
clap = { version = "4", features = ["derive"] }
serde = { version = "1", features = ["derive"] }
serde_json = "1"
serde_yaml = "0.9"
dirs = "5"
env_logger = "0.11"
log = "0.4"
eyre = "0.6"
ctrlc = "3"
notify = "6"
lazy_static = "1"

[dev-dependencies]
tempfile = "3"
