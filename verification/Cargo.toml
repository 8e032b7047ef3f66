[package]
name = "perso"
version = "0.1.0"
edition = "2021"
publish = false

[dependencies]
anyhow = "1"
pdf-extract = "=0.12.1"
rig-core = "=0.31.0"
tokio = { version = "1", features = ["macros", "rt-multi-thread"] }
