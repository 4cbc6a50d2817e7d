[package]
name = "r1_panel"
version = "0.1.0"
edition = "2021"
publish = false

[dependencies]
ctrlc = "3"
env_logger = "0.11"
fontdue = "0.9"
libc = "0.2"
log = "0.4"
serde = { version = "1", features = ["derive"] }
serde_json = "1"
