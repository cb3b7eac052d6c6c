[package]
name = "hidremap"
version = "0.1.0"
edition = "2021"
publish = false

[dependencies]
evdev = "*"
anyhow = "1"
clap = { version = "4", features = ["derive"] }
