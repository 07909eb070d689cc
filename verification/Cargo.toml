[package]
name = "amethyst_dynamic_prefab"
version = "0.1.0"
edition = "2021"
publish = false

[dependencies]
amethyst = { version = "0.15", default-features = false }
darling = "0.20"
log = "0.4"
quote = "1"
serde = { version = "1", features = ["derive"] }
serde_json = "1"
shred-derive = "0.6"
syn = "2"
uuid = { version = "1", features = ["serde", "v4"] }
