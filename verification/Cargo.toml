[package]
name = "toto"
version = "0.1.0"
edition = "2021"
publish = false

[dependencies]
anyhow = "*"
etcetera = "*"
ignore = "*"
libc = "*"
nucleo-matcher = "*"
rayon = "*"
regex = "*"
serde = { version = "*", features = ["derive"] }
shellwords = "*"
toml = "*"
unicode-width = "*"
