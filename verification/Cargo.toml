[package]
name = "syslab"
version = "0.1.0"
edition = "2021"
publish = false

[dependencies]
async-trait = "*"
clap = { version = "*", features = ["derive"] }
crossbeam = "*"
crossbeam-channel = "*"
http = "*"
iced-x86 = { version = "*", default-features = false, features = ["std", "decoder", "fast_fmt"] }
log = "*"
nix = { version = "*", features = ["ptrace", "signal", "process"] }
num_cpus = "*"
pretty_env_logger = "*"
rand = "0.8"
rustyline = "*"
tokio = { version = "1", features = ["net", "sync", "time", "rt-multi-thread", "macros", "io-util"] }
