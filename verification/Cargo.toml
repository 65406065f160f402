[package]
name = "updvcspins"
version = "0.1.0"
edition = "2021"
publish = false

[dependencies]
url = "=2.5.8"
clap = { version = "=4.6.7", features = ["derive"] }
env_logger = "=0.11.11"
git-repository = "=0.35.0"
bstr = "=1.0.1"
git-config = "=0.16.1"
