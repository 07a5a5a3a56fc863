[package]
name = "transport_widget"
version = "0.1.0"
edition = "2021"
publish = false

[dependencies]
urlencoding = "2"
time-humanize = "0.1"
serde = { version = "1", features = ["derive"] }
serde_json = "1"
schemars = "0.8"
time = { version = "0.3", features = ["serde-well-known", "formatting", "parsing"] }
