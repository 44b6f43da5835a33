[package]
name = "linkex"
version = "0.1.0"
edition = "2021"
publish = false

[dependencies]
hashbrown = "*"
clap = { version = "*", features = ["derive"] }
ureq = "*"
