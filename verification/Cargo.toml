[package]
name = "kei"
version = "0.20.0"
edition = "2021"
publish = false

[dependencies]
anyhow = "1"
async-trait = "0.1"
base64 = "0.22"
chrono = { version = "0.4", default-features = false, features = ["std", "clock"] }
futures-util = "0.3"
libc = "0.2"
memchr = "2"
plist = "1"
reqwest = { version = "0.12", default-features = false, features = ["json", "stream"] }
rpassword = "7"
rustc-hash = "2"
secrecy = "0.10"
serde = { version = "1", features = ["derive"] }
serde_json = "1"
smallvec = "1"
thiserror = "2"
tokio = { version = "1", features = ["macros", "process", "rt-multi-thread", "sync", "time"] }
tokio-stream = "0.1"
tracing = "0.1"
tracing-appender = "0.2"
tracing-subscriber = { version = "0.3", features = ["env-filter"] }
url = "2"
