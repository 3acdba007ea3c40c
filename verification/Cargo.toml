[package]
name = "cargo_cleans"
version = "0.1.0"
edition = "2021"
publish = false

[dependencies]
anyhow = "*"
aqueue = "*"
async-recursion = "*"
async-trait = "*"
bytefmt = "*"
chrono = "0.4"
clap = { version = "*", features = ["derive"] }
remove_dir_all = "*"
tokio = { version = "*", features = ["full"] }
