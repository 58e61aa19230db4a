[package]
name = "senbei"
version = "0.1.0"
edition = "2021"
publish = false

[dependencies]
anyhow = "1"
goblin = "*"
indicatif = "*"
memmap2 = "0.9"
owo-colors = "4"
serde = { version = "1", features = ["derive"] }
serde_json = "1"
sha2 = "*"
tempfile = "3"
thiserror = "2"
zip = { version = "*", default-features = false, features = ["deflate"] }
