[package]
name = "hclua"
version = "0.1.0"
edition = "2021"
publish = false

[dependencies]
hcproto = "*"
serde = { version = "1", features = ["derive"] }
log = "0.4"
lazy_static = "1"
libc = "0.2"
syn = { version = "2", features = ["full"] }
quote = "1"
proc-macro2 = "1"
cc = "1"
which = "*"
