[package]
name = "rover"
version = "0.1.0"
edition = "2021"
publish = false

[dependencies]
chrono = "0.4"
dirs = "5"
libc = "0.2"
mime_guess = "2"
open = "5"
parking_lot = "0.12"
serde = { version = "1", features = ["derive"] }
serde_json = "1"
tokio = { version = "1", features = ["rt"] }
trash = "5"
url = "2"
walkdir = "2"
zbus = "5"
