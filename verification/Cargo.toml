[package]
name = "codesign"
version = "0.1.0"
edition = "2021"
publish = false

[dependencies]
bitness = "*"
winreg = "*"
clap = "*"
log = "*"
fern = "*"
chrono = "*"
thiserror = "*"
