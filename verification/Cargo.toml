[package]
name = "bcc"
version = "0.1.0"
edition = "2021"
publish = false

[dependencies]
hashbrown = "=0.12.3"
sled = "=0.34.7"
clap = { version = "=3.2.25", features = ["derive"] }
csv = "=1.4.0"
num_cpus = "=1.17.0"
rust_decimal = "=1.43.0"
serde = { version = "=1.0.229", features = ["derive"] }
thiserror = "=1.0.69"
