[package]
name = "shellclear"
version = "0.1.0"
edition = "2021"
publish = false

[dependencies]
anyhow = "1"
chrono = "0.4"
clap = "3"
console = "*"
dialoguer = "*"
dirs = "*"
env_logger = "*"
exitcode = "1"
log = "*"
mask-text = "*"
prettytable-rs = "*"
rayon = "1"
regex = "1"
requestty = "*"
serde = "1"
serde_derive = "1"
serde_yaml = "*"
