[package]
name = "bevy_bundletree"
version = "0.1.0"
edition = "2021"
publish = false

[dependencies]
bevy = { version = "=0.13.2", default-features = false }
proc-macro2 = "1"
quote = "1"
syn = "2"
