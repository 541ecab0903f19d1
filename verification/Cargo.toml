[package]
name = "bolt_proto"
version = "0.1.0"
edition = "2021"
publish = false

[dependencies]
bytes = "1"
futures-util = { version = "0.3", features = ["io"] }
tokio = { version = "1", features = ["net", "io-util", "rt", "macros"] }
tokio-util = { version = "0.7", features = ["compat"] }
tokio-rustls = "0.23"
webpki-roots = "0.22"
pin-project = "1"
bb8 = "0.8"
async-trait = "0.1"
thiserror = "1"
