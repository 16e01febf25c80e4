[package]
name = "shelly_web"
version = "0.1.0"
edition = "2021"
publish = false

[dependencies]
serde_json = "=1.0.154"
serde = { version = "=1.0.229", features = ["derive"] }
actix-web = "=4.18.1"
actix-web-lab = { version = "=0.29.5", features = ["spa"] }
minreq = "=2.14.1"
rusqlite = { version = "=0.41.1", features = ["bundled", "fallible_uint"] }
csv = "=1.4.0"
