[package]
name = "unifi_search"
version = "0.1.0"
edition = "2021"
publish = false

[dependencies]
zeroize = "1"
serde = { version = "1", features = ["derive"] }
simd-json = "*"
thiserror = "*"
constcat = "*"
reqwest = { version = "0.12", default-features = false, features = ["blocking", "json", "rustls-tls"] }
eframe = { version = "*", default-features = false, features = ["glow", "default_fonts", "x11"] }
image = { version = "*", default-features = false, features = ["ico"] }
