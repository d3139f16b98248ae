[package]
name = "twitchvod"
version = "0.1.0"
edition = "2021"
publish = false

[dependencies]
anyhow = "=1.0.104"
dialoguer = "=0.11.0"
directories = "=5.0.1"
serde = { version = "=1.0.229", features = ["derive"] }
serde_json = "=1.0.154"
serde_yaml = "=0.9.34"
ureq = "=2.12.1"
url = "=2.5.8"

[dev-dependencies]
new_string_template = "=1.5.3"
regex = "=1.13.1"
