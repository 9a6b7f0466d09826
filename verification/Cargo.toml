[package]
name = "shrimp"
version = "1.0.0"
edition = "2021"
publish = false

[dependencies]
anyhow = "1"
clap = { version = "4", features = ["derive"] }
rayon = "1"
reqwest = { version = "0.11", default-features = false, features = ["blocking"] }
thiserror = "1"
