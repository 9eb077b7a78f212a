[package]
name = "kata_core"
version = "0.1.0"
edition = "2021"
publish = false

[dependencies]
bitvec = "*"
postcard = "*"
serde = { version = "*", features = ["derive"] }
spin = "*"
cstr_core = "*"
xmas-elf = "*"
