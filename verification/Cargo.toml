[package]
name = "russd"
version = "0.1.0"
edition = "2021"
publish = false

[dependencies]
chrono = "=0.4.45"
ico = "=0.3.0"
serde = { version = "=1.0.229", features = ["derive"] }
serde_json = "=1.0.151"
reqwest = { version = "=0.11.27", features = ["blocking"] }
notify-rust = "=4.11.7"
webbrowser = "=1.2.4"
daemonize = "=0.4.1"
directories = "=5.0.1"
tempfile = "=3.27.0"
website-icon-extract = "*"
