[package]
name = "spark_note_core"
version = "0.1.0"
edition = "2021"
publish = false

[dependencies]
sha2 = "0.10"
blake3 = "1"
hex = "0.4"
subtle = "2"
zeroize = "1"
getrandom = "0.2"
serde = { version = "1", features = ["derive"] }
serde_json = "1"
thiserror = "1"
