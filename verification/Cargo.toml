[package]
name = "binscope"
version = "0.1.0"
edition = "2021"
publish = false

[dependencies]
capstone = "*"
object = "*"
goblin = "*"
clap = { version = "*", features = ["derive"] }
uris = "*"
which = "*"
tika-magic = "*"
hyperpolyglot = "*"
rust-code-analysis = "*"
printpdf = "*"
