[package]
name = "paniolo"
version = "0.1.0"
edition = "2021"
publish = false

[dependencies]
anyhow = "1"
clap = { version = "4", features = ["derive"] }
dirs = "5"
libc = "0.2"
serde = { version = "1", features = ["derive"] }
serde_json = "1"
serialport = { version = "4", default-features = false }
tempfile = "3"
thiserror = "1"
toml = "0.8"
toml_edit = "0.22"
ureq = { version = "2", default-features = false, features = ["json"] }
