[package]
name = "evdevil"
version = "0.1.3"
edition = "2021"
publish = false

[dependencies]
async-io = "2"
tokio = { version = "1", features = ["net", "rt"] }
