[package]
name = "ttk"
version = "0.1.0"
edition = "2021"
publish = false

[dependencies]
chrono = "0.4"
md5 = "*"
sha1 = "0.10"
walkdir = "2"
zip = { version = "2", default-features = false, features = ["deflate"] }
clap = { version = "4", features = ["derive"] }
colored = "*"
indicatif = "*"
inquire = "*"
libc = "0.2"
