[package]
name = "minty"
version = "0.1.0"
edition = "2021"
publish = false

[dependencies]
lru = "=0.12.5"
dashmap = "=6.2.1"
base64 = "=0.22.1"
sha2 = "=0.10.9"
rand = "=0.8.8"
chrono = "=0.4.45"
scraper = "=0.29.0"
bytesize = "=1.3.3"
textwrap = "=0.16.4"
serde = { version = "=1.0.229", features = ["derive"] }
toml = "=0.8.23"
owo-colors = "=4.4.0"
clap = { version = "=4.6.7", features = ["derive"] }
argon2 = "0.5"
