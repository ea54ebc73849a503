[package]
name = "hexen"
version = "0.1.0"
edition = "2021"
publish = false

[dependencies]
serde = { version = "=1.0.229", features = ["derive"] }
serde_yml = "=0.0.13"
unicode-normalization = "=0.1.26"
path-clean = "=1.0.1"
uuid = { version = "=1.29.0", features = ["v4"] }
clap = { version = "=4.6.7", features = ["derive"] }
ureq = { version = "=3.5.1", default-features = false }
prost = "*"
prost-types = "*"
serde_json = "1"
