[package]
name = "vault_tasks"
version = "0.1.0"
edition = "2021"
publish = false

[dependencies]
chrono = "=0.4.45"
lexical-sort = "=0.3.1"
clap = { version = "=4.6.7", features = ["derive"] }
directories = "=6.0.0"
tabled = "*"
