[package]
name = "simulboot"
version = "0.1.0"
edition = "2021"
publish = false

[dependencies]
sha2 = "0.10"
hex = "0.4"
quick-xml = "0.31"
serde = { version = "1", features = ["derive"] }
bincode = "1"
quinn = { version = "0.11", default-features = false, features = ["runtime-tokio", "runtime-smol", "rustls-ring"] }
smol = "2"
async-channel = "2"
rustls = { version = "0.23", default-features = false, features = ["ring", "std"] }
rcgen = "0.13"
bytes = "1"
anyhow = "1"
thiserror = "1"
tracing = "0.1"
tracing-subscriber = { version = "0.3", features = ["env-filter"] }
tokio = { version = "1", features = ["macros", "rt-multi-thread", "signal", "sync", "net", "io-util", "time"] }
