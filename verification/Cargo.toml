[package]
name = "dir_audit"
version = "0.1.0"
edition = "2021"
publish = false

[dependencies]
clap = { version = "*", features = ["derive", "env"] }
env_logger = "*"
fs_extra = "*"
log = "*"
rusqlite = { version = "*", features = ["bundled"] }
walkdir = "*"
