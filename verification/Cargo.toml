[package]
name = "virtual_keyboard"
version = "0.1.0"
edition = "2021"
publish = false

[dependencies]
minimp3 = "0.5"
tokio = { version = "1", features = ["rt-multi-thread", "macros"] }
