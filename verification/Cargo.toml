[package]
name = "ddquery"
version = "0.1.0"
edition = "2021"
publish = false

[dependencies]
compact_str = "*"
differential-dataflow = "*"
uuid = { version = "*", features = ["v4"] }
crossbeam-channel = "*"
serde = { version = "*", features = ["derive"] }
