[package]
name = "ggg"
version = "0.1.0"
edition = "2021"
publish = false

[dependencies]
petgraph = "=0.6.5"
hashlink = "=0.9.1"
rustc-hash = "=1.1.0"
flume = "=0.11.1"
cursor-icon = "=1.2.0"
image = { version = "=0.25.10", default-features = false }
thiserror = "=1.0.69"
serde = { version = "=1.0.229", features = ["derive"] }
ron = "=0.8.1"
regex = "=1.13.1"
walkdir = "=2.5.0"
anyhow = "=1.0.104"
egui = { version = "0.29", default-features = false }
