[package]
name = "art-window"
version = "0.1.0"
edition = "2021"
publish = false

[dependencies]
anyhow = "1"
serde = { version = "1", features = ["derive"] }
serde_json = "1"
toml = "0.8"
directories = "5"
ureq = { version = "3", features = ["json"] }
rusqlite = "0.32"
gio = "0.20"
glib = "0.20"
libloading = "0.8"
