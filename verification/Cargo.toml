[package]
name = "converter_core"
version = "0.1.0"
edition = "2021"
publish = false

[dependencies]
csv = "1"
ply-rs = "0.1"
spz_rs = "*"
flate2 = "1"
clap = { version = "4", features = ["derive"] }
indicatif = "*"
thiserror = "*"
wasm-bindgen = "*"
uuid = { version = "*", features = ["v4"] }
serde = { version = "*", features = ["derive"] }
