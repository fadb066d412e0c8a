[package]
name = "cargo_rclean"
version = "0.1.0"
edition = "2021"
publish = false

[dependencies]
anyhow = "*"
cargo_metadata = "*"
clap = { version = "*", features = ["derive"] }
colored = "*"
glob = "*"
indicatif = "*"
num_cpus = "*"
rayon = "*"
serde = { version = "*", features = ["derive"] }
serde_json = "*"
toml = "*"
walkdir = "*"
