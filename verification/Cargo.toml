[package]
name = "provisioning"
version = "0.1.0"
edition = "2021"
publish = false

[dependencies]
gpt = "*"
kdl = "*"
linux-raw-sys = { version = "*", features = ["ioctl", "loop_device"] }
log = "*"
nix = "*"
pretty_env_logger = "*"
serde = { version = "*", features = ["derive"] }
serde_json = "*"
serde_with = "*"
