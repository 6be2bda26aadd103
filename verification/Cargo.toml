[package]
name = "batalert"
version = "0.1.0"
edition = "2021"
publish = false

[dependencies]
clap = "*"
crossbeam-channel = "*"
futures = "*"
notify-rust = "*"
tokio = { version = "*", features = ["macros", "rt-multi-thread"] }
