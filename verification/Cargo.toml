[package]
name = "speakturbo"
version = "0.1.0"
edition = "2021"
publish = false

[dependencies]
anyhow = "=1.0.104"
clap = { version = "=4.6.7", features = ["derive"] }
rodio = { version = "=0.17.3", default-features = false }
ureq = { version = "=2.12.1", default-features = false }
