[package]
name = "ghost_meta"
version = "0.1.0"
edition = "2021"
publish = false

[dependencies]
encoding_rs = "*"
sha2 = "*"
image = { version = "*", default-features = false, features = ["png"] }
rusqlite = { version = "*", features = ["bundled"] }
