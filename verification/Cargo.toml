[package]
name = "feeds"
version = "0.1.0"
edition = "2021"
publish = false

[dependencies]
any_spawner = { version = "*", features = ["tokio"] }
axum = { version = "*", features = ["macros"] }
chrono = "*"
feed-rs = "*"
leptos = { version = "*", features = ["ssr"] }
leptos_axum = "*"
miette = { version = "*", features = ["fancy"] }
reqwest = { version = "0.12", default-features = false, features = ["rustls-tls", "gzip", "brotli", "deflate", "zstd"] }
tokio = { version = "*", features = ["rt-multi-thread", "macros", "fs", "io-util", "net"] }
tower = { version = "*", features = ["util"] }
tower-http = { version = "*", features = ["fs"] }
tracing = "*"
tracing-subscriber = { version = "*", features = ["env-filter"] }
url = "*"
