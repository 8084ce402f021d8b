[package]
name = "pgn2csv"
version = "0.1.0"
edition = "2021"
publish = false

[dependencies]
anyhow = "*"
bzip2 = "*"
clap = { version = "*", features = ["derive"] }
globwalk = "*"
indicatif = { version = "*", features = ["rayon"] }
pgn-reader = "=0.26.0"
rayon = "*"
