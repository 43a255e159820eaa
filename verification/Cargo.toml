[package]
name = "rusty_stern"
version = "0.1.0"
edition = "2021"
publish = false

[dependencies]
regex = "*"
chrono = { version = "*", default-features = false, features = ["std"] }
clap = { version = "*", features = ["derive"] }
tokio = { version = "*", features = ["macros", "rt-multi-thread", "sync", "time"] }
futures = "*"
termcolor = "*"
colors-transform = "*"
kube = "*"
k8s-openapi = { version = "*", features = ["latest"] }
