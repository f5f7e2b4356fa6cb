[package]
name = "hk"
version = "0.1.0"
edition = "2021"
publish = false

[dependencies]
clx = "=3.0.5"
console = "=0.16.6"
ensembler = "=1.1.6"
expr-lang = "=2.1.0"
eyre = "=0.6.14"
globset = "=0.4.21"
ignore = "=0.4.34"
indexmap = { version = "=2.14.2", features = ["serde"] }
itertools = "=0.15.0"
log = "=0.4.35"
regex = "=1.13.1"
serde = { version = "=1.0.229", features = ["derive"] }
serde_json = "=1.0.154"
serde_with = "=3.24.0"
shell-quote = "0.7"
similar = "=2.7.0"
tempfile = "=3.27.0"
tera = "=2.4.0"
tokio = { version = "=1.54.1", features = ["full"] }
tokio-util = "=0.7.20"
tracing = "=0.1.44"
xx = "=2.6.3"
