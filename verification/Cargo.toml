[package]
name = "pgprox"
version = "0.1.0"
edition = "2021"
publish = false

[dependencies]
x509-parser = "=0.18.1"
tokio = { version = "=1.54.1", features = ["io-util", "rt", "macros", "sync", "time", "net"] }
thiserror = "=2.0.21"
async-trait = "=0.1.92"
rustls = "=0.23.46"

[dev-dependencies]
rcgen = "0.13"
time = "0.3"
