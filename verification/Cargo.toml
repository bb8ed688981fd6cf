[package]
name = "scope_core"
version = "0.1.0"
edition = "2021"
publish = false

[dependencies]
rustfft = "*"
tokio = { version = "*", features = ["rt-multi-thread", "net", "io-util"] }
tokio-tungstenite = "*"
futures-util = "*"
clap = { version = "*", features = ["derive"] }
eframe = { version = "=0.29.1", default-features = false, features = ["glow", "default_fonts", "x11"] }
