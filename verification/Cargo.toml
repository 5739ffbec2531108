[package]
name = "zaphenath"
version = "0.1.0"
edition = "2021"
publish = false

[dependencies]
web3 = { version = "*", default-features = false, features = ["http", "signing"] }
chrono = "*"
tokio = { version = "*", features = ["macros", "rt-multi-thread", "time"] }
clap = { version = "*", features = ["derive"] }
dirs = "*"
nix = { version = "*", features = ["signal"] }
which = "*"
dialoguer = "*"
env_logger = "*"
