[package]
name = "xml2yaml"
version = "0.1.0"
edition = "2021"
publish = false

[dependencies]
anyhow = "1"
clap = { version = "4", features = ["derive"] }
quick-xml = "0.31"
serde_yaml = "0.9"
