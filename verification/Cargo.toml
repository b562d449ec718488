[package]
name = "rchtmltopdf"
version = "0.1.0"
edition = "2021"
publish = false

[dependencies]
base64 = "0.22"
serde = { version = "1", features = ["derive"] }
serde_json = "1"
libc = "0.2"
tokio = { version = "1", default-features = false, features = ["rt", "macros", "process", "io-util", "sync", "time", "net"] }
