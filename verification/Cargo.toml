[package]
name = "rust-term-console"
version = "0.1.0"
edition = "2021"
publish = false

[dependencies]
quick-xml = "*"
anyhow = "1"
serde = { version = "1", features = ["derive"] }
toml = "*"
dirs = "*"
serialport = { version = "*", default-features = false }
ssh2 = "*"
eframe = { version = "*", default-features = false, features = ["glow", "default_fonts", "x11"] }
