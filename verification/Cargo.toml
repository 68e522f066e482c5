[package]
name = "nv1_ros"
version = "0.1.0"
edition = "2021"
publish = false

[dependencies]
postcard = { version = "1", features = ["use-std"] }
cobs = "0.3"
serde = { version = "1", features = ["derive"] }
tokio = { version = "1", features = ["full"] }
futures = "0.3"
clap = { version = "4", features = ["derive"] }
ndarray = "0.16"
ort = { version = "=2.0.0-rc.8", features = ["load-dynamic", "cuda"] }
opencv = "*"
r2r = "*"
serialport = { version = "4", default-features = false }
system_shutdown = "4"
jetgpio-sys = "*"
