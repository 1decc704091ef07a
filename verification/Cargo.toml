[package]
name = "passrs"
version = "0.1.0"
edition = "2021"
publish = false

[dependencies]
ring = "0.17"
data-encoding = "2"
anyhow = "1"
termion = "1"
tui = { version = "0.9", default-features = false, features = ["termion"] }
walkdir = "2"
clap = { version = "3", features = ["derive"] }
once_cell = "1"
libc = "0.2"
termcolor = "1"
git2 = { version = "0.13", default-features = false }
gpgme = "*"
psutil = "*"
qrcode = { version = "*", default-features = false }
grep-printer = "*"
grep-regex = "*"
grep-searcher = "*"
