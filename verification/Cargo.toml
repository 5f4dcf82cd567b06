[package]
name = "wildfire_sim"
version = "0.1.0"
edition = "2021"
publish = false

[dependencies]
rand = "*"
tokio = { version = "*", features = ["rt-multi-thread", "macros"] }
