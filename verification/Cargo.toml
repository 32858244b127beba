[package]
name = "doty"
version = "0.1.0"
edition = "2021"
publish = false

[dependencies]
anyhow = "*"
camino = "*"
clap = { version = "*", features = ["derive"] }
colored = "*"
dialoguer = "*"
hostname = "*"
kdl = "*"
pluralizer = "*"
