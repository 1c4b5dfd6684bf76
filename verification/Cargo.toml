[package]
name = "libkernel"
version = "0.1.0"
edition = "2021"
publish = false

[dependencies]
thiserror = { version = "2", default-features = false }
async-trait = "0.1"
bitflags = "2"
log = "0.4"
getargs = "*"
