[package]
name = "luascope"
version = "0.1.0"
edition = "2021"
publish = false

[dependencies]
bstr = "1"
num-traits = "0.2"
serde = { version = "1", features = ["derive"] }
futures-core = "0.3"
