[package]
name = "figma-asset-downloader"
version = "0.1.0"
edition = "2021"
publish = false

[dependencies]
anyhow = "1"
console = "0.15"
futures = "0.3"
image = { version = "0.24", default-features = false, features = ["jpeg", "png"] }
oxipng = { version = "8", default-features = false }
reqwest = { version = "0.12", default-features = false, features = ["json", "rustls-tls"] }
scan_dir = "0.3"
serde = { version = "1", features = ["derive"] }
structopt = "0.3"
tokio = { version = "1", features = ["rt-multi-thread", "macros", "fs", "io-util"] }
toml = "0.8"
