[package]
name = "httpd"
version = "0.1.0"
edition = "2021"
publish = false

[dependencies]
base64 = "0.21"
sha1 = "0.10"
flate2 = "1"
brotli = "*"
brotli2 = "*"
bytes = "1"
chrono = "0.4"
tokio = { version = "1", features = ["rt-multi-thread", "net", "io-util", "macros", "time", "signal", "sync"] }
clap = { version = "4", features = ["derive"] }
log = "0.4"
