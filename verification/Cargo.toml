[package]
name = "xyio"
version = "0.1.0"
edition = "2021"
publish = false

[dependencies]
chrono = "0.4"
clap = "2"
getopts = "0.2"
http-muncher = "0.3"
httparse = "1"
libc = "0.2"
log = "0.3"
nix = "0.26"
vec_map = "0.8"
