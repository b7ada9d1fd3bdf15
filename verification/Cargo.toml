[package]
name = "evefrontier_lib"
version = "0.1.0"
edition = "2021"
publish = false

[dependencies]
petgraph = "*"
anyhow = "*"
clap = { version = "*", features = ["derive"] }
directories = "*"
dirs = "*"
indicatif = "*"
reqwest = { version = "*", features = ["blocking", "json"] }
rusqlite = { version = "*", features = ["bundled"] }
serde = { version = "*", features = ["derive"] }
zip = "*"
