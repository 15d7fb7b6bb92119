[package]
name = "rust_datastar_template"
version = "0.1.0"
edition = "2021"
publish = false

[dependencies]
time = { version = "=0.3.55", features = ["formatting", "macros"] }
uuid = { version = "=1.29.0", features = ["v4"] }
ammonia = "=4.2.4"
axum = { version = "=0.8.9", features = ["macros"] }
axum-extra = { version = "=0.10.3", features = ["cookie-private", "form"] }
tokio = { version = "=1.54.1", features = ["full"] }
async-nats = "=0.42.0"
tera = "=1.20.1"
datastar = { version = "=0.4.1", features = ["axum"] }
serde = { version = "=1.0.229", features = ["derive"] }
serde_json = "=1.0.154"
tower-http = { version = "=0.6.11", features = ["compression-br", "fs"] }
tracing = "=0.1.44"
tracing-subscriber = { version = "=0.3.23", features = ["env-filter"] }
dotenvy = "=0.15.7"
envy = "=0.4.2"
futures-util = "=0.3.34"
asynk-strim = "=0.1.5"
async-fn-stream = "=0.3.2"
bb8 = "=0.9.1"
brotli = "=8.0.4"
notify = "=8.2.1"
mime = "=0.3.17"
lightningcss = { version = "1.0.0-alpha.67", default-features = false, features = ["bundler"] }
esbuild-rs = "*"
