[package]
name = "uncap"
version = "0.1.0"
edition = "2021"
publish = false

[dependencies]
anyhow = "=1.0.104"
clap = { version = "=4.6.7", features = ["derive"] }
image = "=0.25.10"
regex = "=1.13.1"
reqwest = { version = "=0.12.28", default-features = false, features = ["blocking", "rustls-tls"] }
scraper = "=0.29.0"
tempfile = "=3.27.0"
url = "=2.5.8"

[dev-dependencies]
imageproc = "=0.25.1"
