[package]
name = "vibe_cli"
version = "0.1.0"
edition = "2021"
publish = false

[dependencies]
anyhow = "1"
bincode = "1"
clap = { version = "4", features = ["derive"] }
colored = "2"
crossterm = "*"
dialoguer = "*"
docx-rs = "*"
dotenvy = "0.15"
futures = "0.3"
md5 = "0.7"
memmap2 = "0.9"
pdf-extract = "*"
rayon = "1"
reqwest = { version = "0.12", default-features = false, features = ["json", "rustls-tls"] }
rusqlite = { version = "*", features = ["bundled"] }
serde = { version = "1", features = ["derive"] }
serde_json = "1"
tokio = { version = "1", features = ["full"] }
