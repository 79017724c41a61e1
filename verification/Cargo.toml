[package]
name = "overlay_core"
version = "0.1.0"
edition = "2021"
publish = false

[dependencies]
roxmltree = "*"
flate2 = "*"
resvg = "*"
png = "*"
serde = { version = "*", features = ["derive"] }
serde_json = "*"
jni-sys = "*"
