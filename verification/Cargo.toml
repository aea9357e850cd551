[package]
name = "uhlc"
version = "0.1.0"
edition = "2021"
publish = false

[dependencies]
rand = "0.8"
humantime = "2"
nix = { version = "0.29", features = ["time"] }
serde = { version = "1", features = ["derive"] }
log = "0.4"
