[package]
name = "ferrum_core"
version = "0.1.0"
edition = "2021"
publish = false

[dependencies]
alphanumeric-sort = "=1.5.8"
serde = { version = "*", features = ["derive"] }
serde_json = { version = "=1.0.151", features = ["preserve_order"] }
atomicwrites = "*"
dirs-next = "*"
trash = "*"
lofty = "*"
id3 = "*"
mp4ameta = "*"
mp3-metadata = "*"
