[package]
name = "music_librarian"
version = "0.1.0"
edition = "2021"
publish = false

[dependencies]
console = "=0.16.6"
dialoguer = "=0.12.0"
elementtree = "=1.2.3"
futures = "=0.3.34"
indicatif = "=0.18.6"
rfd = { version = "=0.17.2", default-features = false, features = ["xdg-portal"] }
rspotify = { version = "=0.16.1", features = ["cli"] }
serde = { version = "=1.0.229", features = ["derive"] }
serde_json = "=1.0.154"
tokio = { version = "=1.54.1", features = ["macros", "rt-multi-thread"] }
