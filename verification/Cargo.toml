[package]
name = "limavel"
version = "0.1.0"
edition = "2021"
publish = false

[dependencies]
anyhow = "1"
clap = { version = "4", features = ["derive"] }
colored = "*"
include_dir = "*"
serde = { version = "1", features = ["derive"] }
serde_json = "1"
serde_yml = "*"
shellexpand = "*"
tar = "*"
tempfile = "3"
thiserror = "*"
which = "*"
