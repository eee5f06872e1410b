[package]
name = "trk"
version = "0.1.0"
edition = "2021"
publish = false

[dependencies]
rusqlite = { version = "*", features = ["bundled"] }
termion = "*"
structopt = "*"
read_input = "*"
