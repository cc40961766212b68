[package]
name = "ihsk"
version = "0.1.0"
edition = "2021"
publish = false

[dependencies]
rand = "*"
ctrlc = "*"
nix = { version = "*", features = ["signal"] }
rustyline = "*"
dirs-next = "*"
