[package]
name = "http1"
version = "0.1.0"
edition = "2021"
publish = false

[dependencies]
async-trait = "0.1"
bstr = { version = "1", default-features = false, features = ["std"] }
bytes = "1"
memchr = "2"
tokio = { version = "1", features = ["io-util", "macros", "net", "rt", "rt-multi-thread", "sync"] }
