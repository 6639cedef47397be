[package]
name = "move_scanner"
version = "0.1.0"
edition = "2021"
publish = false

[dependencies]
ethnum = "1.5.3"
petgraph = "0.6.5"
num = "0.4.3"
hex = "0.4.3"
itertools = "0.10.5"
serde = { version = "1", features = ["derive"] }
serde_json = "1"
clap = { version = "4.5", features = ["derive"] }
strum = "0.25"
strum_macros = "0.25"
ansi_term = "0.12.1"
regex = "1"
walkdir = "2"
anyhow = "1"
codespan-reporting = "0.11.1"
move-core-types = "0.0.3"
