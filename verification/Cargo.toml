[package]
name = "maze_defence"
version = "0.1.0"
edition = "2021"
publish = false

[dependencies]
base64 = "=0.22.1"
sha2 = "=0.10.9"
clap = { version = "=4.6.7", features = ["derive"] }
anyhow = "=1.0.104"
rand = "0.8"
rand_chacha = "0.3"
