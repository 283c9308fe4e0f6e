[package]
name = "heightmap_generator"
version = "0.1.0"
edition = "2021"
publish = false

[dependencies]
eframe = { version = "*", default-features = false, features = ["glow", "x11"] }
rfd = { version = "*", default-features = false, features = ["xdg-portal", "tokio"] }
serde = { version = "1", features = ["derive"] }
serde_json = "1"
thiserror = "*"
rayon = "1"
image = { version = "*", default-features = false, features = ["png"] }
