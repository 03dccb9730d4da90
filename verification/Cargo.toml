[package]
name = "dnf_generator"
version = "0.1.0"
edition = "2021"
publish = false

[dependencies]
indexmap = { version = "2", features = ["serde"] }
regex = "1"
rnix = "*"
rowan = "*"
serde = { version = "1", features = ["derive"] }
serde_path_to_error = "*"
serde_yaml = "0.9"
thiserror = "*"
