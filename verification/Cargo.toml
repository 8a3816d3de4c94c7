[package]
name = "timeline_compositor"
version = "0.1.0"
edition = "2021"
publish = false

[dependencies]
symphonia = "=0.5.5"
rubato = "=0.15.0"
hound = "=3.5.1"
chrono = { version = "=0.4.45", features = ["serde"] }
serde = { version = "=1.0.229", features = ["derive"] }
serde_json = "=1.0.151"
