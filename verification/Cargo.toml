[package]
name = "clashctl"
version = "0.1.0"
edition = "2021"
publish = false

[dependencies]
unicode-segmentation = "=1.13.3"
unicode-width = "=0.1.11"
tui = "=0.19.0"
serde = { version = "=1.0.229", features = ["derive"] }
serde_json = "=1.0.154"
