[package]
name = "fence_chip"
version = "0.1.0"
edition = "2021"
publish = false

[dependencies]
anyhow = "=1.0.104"
bincode = "=1.3.3"
clap = { version = "=4.6.7", features = ["derive"] }
elf = "=0.7.4"
hex = "=0.4.3"
p3-air = "=0.2.0"
p3-baby-bear = "=0.2.0"
p3-field = "=0.2.0"
p3-matrix = "=0.2.0"
rand = "=0.8.8"
serde = { version = "=1.0.229", features = ["derive"] }
