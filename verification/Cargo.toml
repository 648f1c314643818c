[package]
name = "blockchain"
version = "0.1.0"
edition = "2021"
publish = false

[dependencies]
hex = "0.4"
openssl = "0.10"
sha256 = "1"
uuid = { version = "1", features = ["v4"] }
tokio = { version = "1", features = ["full"] }
tonic = "0.12"
prost = "0.13"
clap = { version = "4", features = ["derive"] }
igd = "0.12"
local-ip-address = "0.6"
