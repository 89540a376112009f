[package]
name = "packet_io"
version = "0.1.0"
edition = "2021"
publish = false

[dependencies]
async-trait = "0.1"
downcast-rs = "1.2"
serde = { version = "1", features = ["derive"] }
serde-aux = { version = "4", default-features = false }
serde_yaml = "0.9"
tokio = { version = "1", default-features = false, features = ["fs", "io-util", "net", "rt", "sync", "time"] }
