[package]
name = "mdsite"
version = "0.1.0"
edition = "2021"
publish = false

[dependencies]
ammonia = "=4.2.1"
url = "=2.5.8"
percent-encoding = "=2.3.2"
corosensei = "=0.1.4"
pin-project-lite = "=0.2.17"
lol_html = "=1.2.1"
pulldown-cmark = "=0.12.2"
pulldown-cmark-escape = "=0.11.0"
anyhow = "=1.0.104"
serde = { version = "=1.0.229", features = ["derive"] }
serde_yaml = "=0.9.34"
fs-err = "=2.11.0"
rand = "=0.8.8"
rand_pcg = "=0.3.1"
rand_seeder = "=0.2.3"
time = "=0.3.55"
scraper = "=0.19.1"
thiserror = "=1.0.69"
flume = "=0.11.1"
tokio = { version = "=1.53.2", features = ["rt", "rt-multi-thread", "sync", "signal", "macros", "time"] }
tokio-util = "=0.7.19"
axum = "=0.7.9"
axum-extra = { version = "=0.9.6", features = ["cookie-private"] }
axum-server = "=0.7.3"
tower = "=0.4.13"
tower-http = { version = "=0.5.2", features = ["fs", "trace"] }
tracing = "=0.1.44"
tracing-subscriber = "=0.3.23"
tracing-tree = "=0.4.1"
