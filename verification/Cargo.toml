[package]
name = "pantera"
version = "0.1.0"
edition = "2021"
publish = false

[dependencies]
text_io = "0.1"
clap = { version = "4", features = ["derive"] }

[dev-dependencies]
rand = "0.9"
