[package]
name = "clipcore"
version = "0.1.0"
edition = "2021"
publish = false

[dependencies]
clipboard-win = "*"
winapi = { version = "*", features = ["winuser", "winbase", "stringapiset", "winnls", "basetsd"] }
