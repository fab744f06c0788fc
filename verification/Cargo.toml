[package]
name = "mavrik"
version = "0.1.0"
edition = "2021"
publish = false

[dependencies]
tokio = { version = "1", features = ["macros", "rt", "net", "sync", "io-util", "signal", "time"] }
libc = "0.2"

[dev-dependencies]
serde_json = "1"
