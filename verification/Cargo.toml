[package]
name = "p9fuse"
version = "0.1.0"
edition = "2021"
publish = false

[dependencies]
bytes = "=1.12.1"
clap = { version = "=4.6.7", features = ["derive"] }
fuser = { version = "=0.14.0", default-features = false, features = ["abi-7-31"] }
futures-util = { version = "=0.3.34", features = ["sink"] }
libc = "=0.2.191"
nix = { version = "=0.29.0", features = ["mount", "socket", "user", "fs"] }
tokio = { version = "=1.54.1", features = ["rt-multi-thread", "macros", "net", "io-util", "io-std", "sync", "time"] }
tokio-tungstenite = { version = "=0.24.0", features = ["rustls-tls-webpki-roots"] }
tokio-util = { version = "=0.7.20", features = ["codec"] }
tracing = "=0.1.44"
tracing-subscriber = { version = "=0.3.23", features = ["env-filter"] }
