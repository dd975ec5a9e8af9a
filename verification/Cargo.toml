[package]
name = "yeet"
version = "0.1.0"
edition = "2021"
publish = false

[dependencies]
age = "*"
axum = "*"
axum_thiserror = "*"
backon = "*"
clap = { version = "*", features = ["derive"] }
console = "*"
ed25519-dalek = "*"
httpsig-hyper = "*"
inquire = "*"
log = "*"
parking_lot = { version = "*", features = ["arc_lock"] }
rootcause = "*"
serde = { version = "*", features = ["derive"] }
serde_json = "*"
tempfile = "*"
thiserror = "*"
tokio = { version = "*", features = ["full"] }
url = "*"
uuid = { version = "*", features = ["v4"] }
