[package]
name = "visora"
version = "0.1.0"
edition = "2021"
publish = false

[dependencies]
slotmap = "1"
dashmap = "6"
uuid = { version = "1", features = ["v4"] }
itertools = "*"
lipsum = "*"
tokio = { version = "1", features = ["full"] }
tokio-tungstenite = "*"
futures-util = "0.3"
vello = "0.3"
winit = "0.30"
pollster = "*"
eyre = "*"
image = "0.25"
