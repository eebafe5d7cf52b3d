[package]
name = "ftp-slint"
version = "0.1.0"
edition = "2021"
publish = false

[dependencies]
chrono = "0.4"
dotenvy = "0.15"
slint = { version = "1", default-features = false, features = ["compat-1-2", "std"] }
suppaftp = "11"
tracing = "0.1"
