[package]
name = "ikki"
version = "0.1.0"
edition = "2021"
publish = false

[dependencies]
bollard = "0.13"
clap = { version = "3", features = ["derive"] }
futures = "0.3"
indicatif = "0.17"
kdl = "4"
knuffel = "3"
miette = "5"
multimap = { version = "0.8", default-features = false }
notify = "4"
tar = "0.4"
thiserror = "1"
tokio = { version = "1", features = ["rt-multi-thread", "macros", "sync", "fs", "signal"] }
tracing = "0.1"
tracing-subscriber = { version = "0.3", features = ["env-filter"] }
