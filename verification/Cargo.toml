[package]
name = "volumetrik"
version = "0.1.0"
edition = "2021"
publish = false

[dependencies]
rayon = "=1.12.0"
serde = { version = "=1.0.229", features = ["derive"] }
serde_json = "=1.0.151"
sysinfo = "=0.39.6"
reqwest = { version = "=0.13.5", default-features = false, features = ["blocking", "form", "json"] }
chrono = "=0.4.45"
