[package]
name = "yinetd"
version = "0.1.0"
edition = "2021"
publish = false

[dependencies]
shlex = "=1.3.0"
mio = { version = "=1.0.4", features = ["os-poll", "net"] }
nix = { version = "=0.29.0", features = ["fs", "process"] }
libc = "=0.2.190"
log = "=0.4.34"
env_logger = "=0.11.11"
clap = { version = "=4.5.61", features = ["derive"] }
anyhow = "=1.0.104"
