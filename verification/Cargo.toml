[package]
name = "cross_platform_screenshot_rust"
version = "0.1.0"
edition = "2021"
publish = false

[dependencies]
gif = "0.13"
rayon = "1"
serde = { version = "1", features = ["derive"] }
serde_json = "1"
