[package]
name = "hl"
version = "0.1.0"
edition = "2021"
publish = false

[dependencies]
bytesize = "*"
libc = "*"

[dependencies.bpaf]
version = "*"
features = ["derive"]
