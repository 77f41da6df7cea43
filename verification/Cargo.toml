[package]
name = "pairqr"
version = "0.1.0"
edition = "2021"
publish = false

[dependencies]
ctrlc = "3"
flume = "0.11"
mdns-sd = "0.13"
qrcode = { version = "0.14", default-features = false }
rand = "0.8"
tokio = { version = "1", features = ["rt-multi-thread", "macros", "net", "io-util", "time", "sync"] }
