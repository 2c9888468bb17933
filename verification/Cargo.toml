[package]
name = "triangle"
version = "0.1.0"
edition = "2021"
publish = false

[dependencies]
url = "=2.5.8"
wildmatch = "=2.7.0"
serde = { version = "=1.0.229", features = ["derive"] }
thiserror = "=2.0.21"
tokio = { version = "=1.54.1", features = ["full"] }
tokio-socks = "=0.5.3"
figment = { version = "=0.10.19", features = ["json", "env"] }
color-eyre = "=0.6.5"
tracing = "=0.1.44"
tracing-subscriber = "=0.3.23"

[dev-dependencies]
rustls = { version = "=0.23.46", default-features = false, features = ["std"] }
