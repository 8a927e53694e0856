[package]
name = "db_migrator"
version = "0.1.0"
edition = "2021"
publish = false

[dependencies]
chrono = "0.4"
clap = { version = "4", features = ["derive"] }
colored = "2"
itertools = "*"
postgres = { version = "0.19", features = ["with-chrono-0_4"] }
rpassword = "7"
