[package]
name = "notesite"
version = "0.1.0"
edition = "2021"
publish = false

[dependencies]
comrak = "=0.44.0"
gray_matter = "=0.3.2"
tera = "=2.4.0"
serde = { version = "=1.0.229", features = ["derive"] }
clap = { version = "=4.6.7", features = ["derive"] }
walkdir = "=2.5.0"
