[package]
name = "boyer_moore"
version = "0.1.0"
edition = "2021"
publish = false

[dependencies]
console = { version = "0.16", default-features = false, features = ["std"] }
indicatif = "=0.16.2"
winapi = { version = "=0.3.9", features = ["fileapi", "handleapi", "memoryapi", "winnt"] }
