[package]
name = "luacells"
version = "0.1.0"
edition = "2021"
publish = false

[dependencies]
grid-area = "*"
rand = "*"
crossterm = "*"
ctrlc = "*"
mlua = { version = "*", features = ["lua54", "vendored"] }
