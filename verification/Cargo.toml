[package]
name = "xtralib"
version = "0.1.0"
edition = "2021"
publish = false

[dependencies]
byteorder = "1"
ethereum-types = "*"
log = "0.4"
num-bigint = { version = "0.4", features = ["serde"] }
serde = { version = "1", features = ["derive"] }
serde_arrays = "*"
serde_json = "1"
simplelog = "*"
snap = "1"
thiserror = "1"
