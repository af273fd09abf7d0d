[package]
name = "tapgres"
version = "0.4.0"
edition = "2021"
publish = false

[dependencies]
bytes = "1"
chrono = "0.4"
clap = { version = "4", features = ["derive"] }
crossbeam-channel = "0.5"
pcap = "*"
pgwire = { version = "*", default-features = false }
ratatui = { version = "*", features = ["unstable-rendered-line-info"] }
rcgen = { version = "0.14", default-features = false, features = ["pem", "ring"] }
regex = "1"
rustls = { version = "0.23", default-features = false, features = ["ring", "std", "tls12"] }
rustls-pemfile = "2"
serde = { version = "1", features = ["derive"] }
serde_json = "1"
tokio = { version = "1", features = ["rt-multi-thread", "net", "io-util", "time", "macros"] }
tokio-rustls = { version = "0.26", default-features = false, features = ["ring", "tls12"] }

[dev-dependencies]
tempfile = "3"
