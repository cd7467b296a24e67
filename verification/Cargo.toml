[package]
name = "quic_mls"
version = "0.1.0"
edition = "2021"
publish = false

[dependencies]
aes = "0.8"
aes-gcm = "0.10"
anyhow = "1"
bytes = "1"
clap = { version = "4", features = ["derive"] }
hkdf = "0.12"
mls-rs = "*"
mls-rs-crypto-rustcrypto = "*"
quinn = "0.11"
quinn-proto = "0.11"
rcgen = "0.14"
rustls = "0.23"
rustls-pemfile = "2"
serde = { version = "1", features = ["derive"] }
serde_json = "1"
sha2 = "0.10"
thiserror = "2"
tokio = { version = "1", features = ["full"] }
tracing = "0.1"
tracing-subscriber = { version = "0.3", features = ["env-filter"] }
