[package]
name = "remote_screen"
version = "0.1.0"
edition = "2021"
publish = false

[dependencies]
anyhow = "=1.0.104"
async-io = "=2.6.0"
clap = { version = "=4.6.7", features = ["derive"] }
ctrlc = { version = "=3.5.2", features = ["termination"] }
futures-lite = "=2.6.1"
libc = "=0.2.191"
serde = { version = "=1.0.229", features = ["derive"] }
serde_json = "=1.0.154"
zbus = "=5.19.0"
