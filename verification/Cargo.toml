[package]
name = "stracer"
version = "0.1.0"
edition = "2021"
publish = false

[dependencies]
env_logger = "*"
libc = "*"
log = "*"
nix = { version = "*", features = ["fs", "process", "ptrace", "signal"] }
regex = "*"
structopt = "*"
termion = "*"
