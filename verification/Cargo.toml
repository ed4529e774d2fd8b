[package]
name = "volumetric"
version = "0.1.0"
edition = "2021"
publish = false

[dependencies]
clap = "=4.6.7"
indexmap = { version = "2", features = ["serde"] }
serde = "=1.0.229"
serde_yaml = "=0.9.34"
sha2 = "=0.11.0"
