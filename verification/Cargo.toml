[package]
name = "tarot"
version = "0.1.0"
edition = "2021"
publish = false

[dependencies]
hex = "0.4"
des = "0.8"
cbc = "0.1"
ecb = "0.1"
sha1 = "0.10"
rand = "0.8"
encoding_rs = "0.8"
pcsc = "2"
thiserror = "1"
clap = { version = "4", features = ["derive"] }
ratatui = "0.29"
crossterm = "0.28"
