[package]
name = "msg_harvester"
version = "0.1.0"
edition = "2021"
publish = false

[dependencies]
aho-corasick = "=1.1.5"
linkify = "=0.11.0"
url = "=2.5.8"
urlencoding = "=2.1.3"
scraper = "=0.27.0"
serde = { version = "=1.0.229", features = ["derive"] }
serde_json = "=1.0.151"
toml = "=1.1.7"
chrono = "=0.4.45"
croner = "=4.0.1"
form_urlencoded = "=1.2.2"
tracing = "=0.1.44"
tracing-subscriber = "=0.3.23"
