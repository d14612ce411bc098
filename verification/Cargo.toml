[package]
name = "terramenta"
version = "0.1.0"
edition = "2021"
publish = false

[dependencies]
serde = { version = "1", features = ["derive"] }
serde_json = "1"
sgp4 = "*"
geozero = { version = "*", default-features = false, features = ["with-mvt"] }
