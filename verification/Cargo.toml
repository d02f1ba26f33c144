[package]
name = "helixrack"
version = "0.1.0"
edition = "2021"
publish = false

[dependencies]
httparse = "1"
io-uring = "0.7"
libc = "0.2"
magnus = "0.8"
rb-sys = "0.9"
tempfile = "3"
tokio = { version = "1", features = ["fs", "io-util", "macros", "net", "rt", "time"] }
