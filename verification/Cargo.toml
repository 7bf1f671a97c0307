[package]
name = "my_eip_project"
version = "0.1.0"
edition = "2021"
publish = false

[dependencies]
anyhow = "1"
byteorder = "1"
bytes = "1"
log = "0.4"
rseip = "*"
tokio = { version = "1", features = ["full"] }
