[package]
name = "ircfs"
version = "0.1.0"
edition = "2021"
publish = false

[dependencies]
time = "0.1"
libc = "0.2"
num_cpus = "1"
clap = "2"
toml = "0.4"
serde = "1"
serde_derive = "1"
irc = "0.13"
fuse = "0.3"
fuse_mt = "0.4"
