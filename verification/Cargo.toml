[package]
name = "wry_bindgen"
version = "0.1.0"
edition = "2021"
publish = false

[dependencies]
base64 = "=0.22.1"
slotmap = "=1.1.1"
async-channel = "=2.5.0"
futures-channel = "=0.3.34"
futures-util = "=0.3.34"
pollster = "=0.4.0"
spin = "=0.12.3"
once_cell = "=1.21.4"
inventory = "=0.3.25"
proc-macro2 = "=1.0.107"
quote = "=1.0.47"
syn = { version = "=3.0.9", features = ["full"] }
