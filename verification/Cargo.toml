[package]
name = "dfplot"
version = "0.1.0"
edition = "2021"
publish = false

[dependencies]
anyhow = "*"
clap = { version = "*", features = ["derive"] }
plotly = "*"
polars = { version = "*", default-features = false, features = ["csv", "json"] }
