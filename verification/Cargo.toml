[package]
name = "rocket"
version = "0.1.0"
edition = "2021"
publish = false

[dependencies]
comrak = { version = "=0.44.0", default-features = false }
glob = "=0.3.4"
handlebars = "=6.4.4"
log = "=0.4.34"
rand = "=0.10.3"
regex = "=1.13.1"
serde = { version = "=1.0.229", features = ["derive"] }
serde_json = "=1.0.154"
simple_logger = "=5.2.0"
time = "=0.3.55"
toml = "=1.1.8"
walkdir = "=2.5.0"
