[package]
name = "bichon-uidonly"
version = "0.1.0"
edition = "2021"
publish = false

[dependencies]
async-imap = { version = "0.11", default-features = false, features = ["runtime-tokio"] }
blake3 = "1"
bytes = "1"
futures = "0.3"
imap-proto = "0.16"
mail-parser = "0.11"
tantivy = { version = "*", default-features = false }
tokio = { version = "1", features = ["io-util", "macros", "net", "rt", "sync", "time"] }
tokio-io-timeout = "1.2"
tokio-rustls = { version = "0.26", default-features = false }
tokio-util = "0.7"
tracing = "0.1"
uuid = { version = "1", features = ["v4"] }
