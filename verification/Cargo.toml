[package]
name = "mxl_investigator"
version = "0.1.0"
edition = "2021"
publish = false

[dependencies]
anyhow = "*"
chrono = "*"
directories = "*"
fern = "*"
fs4 = "*"
humantime = "*"
log = "*"
trash = "*"
walkdir = "*"
zip = { version = "*", default-features = false, features = ["deflate"] }
