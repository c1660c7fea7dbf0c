[package]
name = "fntforge"
version = "0.4.0"
edition = "2021"
publish = false

[dependencies]
image = { version = "0.25", default-features = false, features = ["png"] }
fontdue = "0.9"
ttf-parser = "*"
rayon = "1"
serde = { version = "1", features = ["derive"] }
serde_json = "1"
thiserror = "*"
anyhow = "1"
clap = { version = "4", features = ["derive"] }
