[package]
name = "groth16"
version = "0.1.0"
edition = "2021"
publish = false

[dependencies]
ark-ec = "0.5"
ark-ff = "0.5"
ark-mnt6-753 = "0.5"
ark-serialize = { version = "0.5", features = ["derive"] }
ark-std = "0.5"
rand = "0.9"
serde = { version = "1", features = ["derive"] }
serde_json = "1"
