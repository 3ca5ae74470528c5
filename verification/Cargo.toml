[package]
name = "dupfinder"
version = "0.1.0"
edition = "2021"
publish = false

[dependencies]
md5 = "0.8"
rayon = "1"
chrono = "0.4"
serde = { version = "1", features = ["derive"] }
tauri = { version = "2", default-features = false }
