[package]
name = "taskfile_runner"
version = "0.1.0"
edition = "2021"
publish = false

[dependencies]
clap = { version = "4", features = ["derive"] }
colored = "*"
indexmap = { version = "2", features = ["serde"] }
petgraph = "0.6"
regex = "1"
serde = { version = "1", features = ["derive"] }
serde_yaml = "0.9"
thiserror = "*"

[dev-dependencies]
serde_json = "1"
tempfile = "3"
