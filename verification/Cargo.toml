[package]
name = "rdb"
version = "0.1.0"
edition = "2021"
publish = false

[dependencies]
anyhow = "=1.0.104"
base64 = "=0.13.1"
byteorder = "=1.5.0"
futures = "=0.3.34"
log = "=0.4.34"
rand = "=0.8.8"
rmp-serde = "=1.3.1"
rpds = "*"
serde = { version = "=1.0.229", features = ["derive"] }
smallvec = "=1.16.4"
thiserror = "=1.0.69"
