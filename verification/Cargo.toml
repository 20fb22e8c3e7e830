[package]
name = "rgbd"
version = "0.1.0"
edition = "2021"
publish = false

[dependencies]
anyhow = "*"
directories = "*"
log = "*"
rusqlite = { version = "*", features = ["bundled"] }
ureq = { version = "*", default-features = false }
url = "*"
xz2 = { version = "*", features = ["static"] }
