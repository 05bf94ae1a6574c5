[package]
name = "pereplyot"
version = "0.3.0"
edition = "2021"
publish = false

[dependencies]
blake3 = "1"
chrono = { version = "0.4", features = ["serde"] }
serde = { version = "1", features = ["derive"] }
serde_json = "1"
glib = "*"
gtk4 = "*"
libadwaita = "*"
