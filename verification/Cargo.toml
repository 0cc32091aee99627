[package]
name = "carlo-mc"
version = "0.1.0"
edition = "2021"
publish = false

[dependencies]
hdf5-pure = "=0.47.0"
rand = "0.10"
serde = { version = "1", features = ["derive"] }
serde_json = "=1.0.154"
toml = "=1.1.8"
