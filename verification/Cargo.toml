[package]
name = "dcp"
version = "0.1.0"
edition = "2021"
publish = false

[dependencies]
bytesize = "*"
clap = { version = "*", features = ["derive"] }
faststr = "*"
io-uring = "*"
libc = "*"
memmap2 = "*"
nix = { version = "*", features = ["fs", "ioctl"] }
num-integer = "*"
thiserror = "*"
thousands = "*"
tracing = "*"
tracing-subscriber = { version = "*", features = ["env-filter"] }
