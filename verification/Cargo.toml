[package]
name = "jpv_lib"
version = "0.1.0"
edition = "2021"
publish = false

[dependencies]
anyhow = "1"
async-fuse = "*"
axum = { version = "0.6", features = ["ws"] }
clap = { version = "4", features = ["derive"] }
dbus = "0.9"
flate2 = "1"
futures = "0.3"
log = "0.4"
proc-macro2 = "1"
quote = "1"
rand = { version = "=0.8.8", features = ["small_rng"] }
reqwest = { version = "0.11", default-features = false, features = ["rustls-tls"] }
serde = { version = "1", features = ["derive"] }
serde_json = "1"
syn = { version = "2", features = ["full"] }
tokio = { version = "1", features = ["full"] }
tracing = "0.1"
web-sys = { version = "0.3", features = ["HtmlInputElement"] }
yew = { version = "0.21", features = ["csr"] }
yew-router = "0.18"
