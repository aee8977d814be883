[package]
name = "hiddenhand"
version = "0.1.0"
edition = "2021"
publish = false

[dependencies]
sha2 = "0.10"
anchor-lang = "*"

[dev-dependencies]
rand = "0.8"
aya_poker = "*"
