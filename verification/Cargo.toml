[package]
name = "e4s_cl_completion"
version = "0.1.0"
edition = "2021"
publish = false

[dependencies]
dirs = "*"
itertools = "*"
log = "*"
serde = { version = "*", features = ["derive"] }
serde_json = "*"
shlex = "*"
simplelog = "*"
