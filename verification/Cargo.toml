[package]
name = "jj_commands"
version = "0.1.0"
edition = "2021"
publish = false

[dependencies]
clap = { version = "4", features = ["derive"] }
globset = "0.4"
ignore = "0.4"
thiserror = "2"
tracing = "0.1"
