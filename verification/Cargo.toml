[package]
name = "uca_collate"
version = "0.1.0"
edition = "2021"
publish = false

[dependencies]
hashbrown = "*"
unicode-canonical-combining-class = "*"
once_cell = "*"
bincode = { version = "*", features = ["serde"] }
serde = "*"
