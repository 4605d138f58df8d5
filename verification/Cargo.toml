[package]
name = "shardsim"
version = "0.1.0"
edition = "2021"
publish = false

[dependencies]
rand = "0.8"
clap = { version = "4", features = ["derive"] }
humantime = "2"
neo4rs = "0.7"
tokio = { version = "1", features = ["macros", "rt-multi-thread", "sync"] }
log = "0.4"
