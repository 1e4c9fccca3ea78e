[package]
name = "map_poster"
version = "0.1.0"
edition = "2021"
publish = false

[dependencies]
serde_json = "=1.0.151"
clap = { version = "=4.6.7", features = ["cargo"] }
reqwest = { version = "=0.13.5", default-features = false, features = ["blocking", "query"] }
time = { version = "=0.3.55", features = ["formatting"] }
tracing = "=0.1.44"
tracing-subscriber = "=0.3.23"
nu-ansi-term = "=0.50.3"
