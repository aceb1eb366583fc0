[package]
name = "tablet_bridge"
version = "0.1.0"
edition = "2021"
publish = false

[dependencies]
input-linux = "*"
adb_client = "*"
clap = { version = "4", features = ["derive"] }
cli-table = "*"
nix = "*"
