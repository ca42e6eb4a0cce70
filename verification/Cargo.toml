[package]
name = "mtklogo"
version = "0.1.0"
edition = "2021"
publish = false

[dependencies]
ansi_term = "*"
clap = "*"
flate2 = "*"
libflate = "*"
png = "*"
serde = "*"
serde_derive = "*"
serde_yaml = "*"

[dev-dependencies]
byteorder = "*"
