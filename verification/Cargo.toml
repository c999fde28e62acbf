[package]
name = "tagver"
version = "0.1.0"
edition = "2021"
publish = false

[dependencies]
git2 = { version = "*", default-features = false }
git-conventional = "*"
regex = "*"
clap = { version = "*", features = ["derive"] }
env_logger = "*"
log = "*"
