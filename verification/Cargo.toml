[package]
name = "qr_code_generator"
version = "0.1.0"
edition = "2021"
publish = false

[dependencies]
qrcode = "=0.14.1"
rqrr = "=0.11.0"
image = "=0.25.10"
log = "=0.4.34"
reqwest = { version = "=0.13.5", default-features = false, features = ["blocking", "json", "query", "default-tls"] }
serde = { version = "=1.0.229", features = ["derive"] }
clap = { version = "=4.6.7", features = ["derive"] }
env_logger = "=0.11.11"
thiserror = "=2.0.21"
