[package]
name = "nokk-core"
version = "0.1.0"
edition = "2021"
publish = false

[dependencies]
anyhow = "*"
crossterm = "*"
ksni = "*"
layershellev = "*"
memmap2 = "*"
png = "*"
ron = "*"
serde = { version = "*", features = ["derive"] }
tempfile = "*"
tokio = { version = "*", features = ["rt"] }
wayland-client = "*"
