[package]
name = "hcompiler"
version = "0.1.0"
edition = "2021"
publish = false

[dependencies]
koopa = "*"
lalrpop-util = { version = "*", features = ["lexer"] }
