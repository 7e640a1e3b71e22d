[package]
name = "my_site_generator"
version = "0.1.0"
edition = "2021"
publish = false

[dependencies]
anyhow = "*"
axum = "*"
chrono = "*"
comrak = { version = "*", features = ["shortcodes"] }
env_logger = "*"
envconfig = "*"
git2 = { version = "*", default-features = false }
hypertext = "*"
log = "*"
minify-html = "*"
normalize-path = "*"
rss = { version = "*", features = ["atom", "builders"] }
serde = { version = "*", features = ["derive"] }
serde_yaml = "*"
tokio = { version = "*", features = ["full"] }
tower = "*"
tower-http = { version = "*", features = ["fs", "trace", "normalize-path"] }
tracing = "*"
tracing-subscriber = { version = "*", features = ["env-filter"] }
