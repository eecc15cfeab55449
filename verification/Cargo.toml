[package]
name = "mech"
version = "0.1.0"
edition = "2021"
publish = false

[dependencies]
serde_json = "1"
url = "2"
clap = { version = "4", features = ["derive"] }
libc = "0.2"
