[package]
name = "d3dasm"
version = "0.1.0"
edition = "2021"
publish = false

[dependencies]
nostdio = "=0.1.0"
smallvec = "=1.16.4"
clap = { version = "=4.6.7", features = ["derive"] }
