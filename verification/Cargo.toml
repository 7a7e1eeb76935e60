[package]
name = "npc_dialog"
version = "0.1.0"
edition = "2021"
publish = false

[dependencies]
rand = "0.9"
anyhow = "1"
console = "0.15"
dialoguer = { version = "0.11", default-features = false }
