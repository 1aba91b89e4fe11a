[package]
name = "energy_analysis"
version = "0.1.0"
edition = "2021"
publish = false

[dependencies]
anyhow = "*"
chrono = "*"
clap = { version = "*", features = ["derive"] }
csv = "*"
plotters = "*"
serde = { version = "*", features = ["derive"] }
