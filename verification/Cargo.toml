[package]
name = "tor_js_gateway"
version = "0.1.0"
edition = "2021"
publish = false

[dependencies]
anyhow = "=1.0.104"
async-compression = { version = "=0.4.52", features = ["futures-io", "zlib", "xz", "zstd"] }
axum = { version = "=0.8.9", default-features = false, features = ["http1", "tokio", "ws"] }
base64ct = { version = "=1.8.3", features = ["alloc"] }
clap = { version = "=4.6.7", default-features = false, features = ["derive", "error-context", "help", "std", "usage"] }
dirs = "=6.0.0"
futures = "=0.3.34"
humantime = "=2.4.0"
json5 = "=0.4.1"
rand = "=0.9.5"
serde = { version = "=1.0.229", features = ["derive"] }
serde_json = "=1.0.154"
sha3 = "=0.10.9"
str0m = { version = "=0.17.0", default-features = false }
tokio = { version = "=1.54.1", features = ["fs", "io-util", "macros", "net", "rt-multi-thread", "sync", "time"] }
tor-checkable = "=0.40.0"
tor-consdiff = { version = "=0.40.0", default-features = false }
tor-netdoc = { version = "=0.40.0", default-features = false }
tracing = "=0.1.44"
tracing-subscriber = { version = "=0.3.23", default-features = false, features = ["env-filter", "fmt"] }
