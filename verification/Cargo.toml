[package]
name = "common"
version = "0.1.0"
edition = "2021"
publish = false

[dependencies]
etherparse = "=0.21.0"
sha2 = "=0.10.9"
libc = "=0.2.191"
nix = { version = "=0.30.1", features = ["socket", "fs", "ioctl", "net", "uio"] }
tokio = { version = "=1.54.1", features = ["net", "io-util", "rt", "rt-multi-thread", "macros", "time"] }
tokio-vsock = "=0.7.3"
reqwest = { version = "=0.12.28", default-features = false, features = ["blocking"] }
