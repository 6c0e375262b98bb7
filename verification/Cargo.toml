[package]
name = "morpheus_serial"
version = "0.1.0"
edition = "2021"
publish = false

[dependencies]
getopt = "*"
serde = { version = "*", features = ["derive"] }
tokio = { version = "*", features = ["full"] }
tokio-serial = { version = "*", default-features = false }
warp = "*"
