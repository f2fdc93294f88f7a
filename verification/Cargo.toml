[package]
name = "burrito"
version = "0.1.0"
edition = "2021"
publish = false

[dependencies]
anyhow = "=1.0.104"
bson = "=2.15.0"
dryoc = "2.0.0"
serde = { version = "=1.0.229", features = ["derive"] }
