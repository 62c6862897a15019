[package]
name = "authentication"
version = "0.1.0"
edition = "2021"
publish = false

[dependencies]
sha2 = "=0.10.9"
serde = { version = "=1.0.229", features = ["derive"] }
serde_json = "=1.0.151"
tokio = { version = "=1.53.2", features = ["rt-multi-thread", "net", "io-util", "macros"] }
once_cell = "=1.21.4"
anyhow = "=1.0.104"
clap = { version = "=4.6.7", features = ["derive"] }
colored = "=2.2.0"

[dev-dependencies]
rayon = "=1.12.0"
