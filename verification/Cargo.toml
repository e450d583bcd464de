[package]
name = "inliner"
version = "0.1.0"
edition = "2021"
publish = false

[dependencies]
anyhow = "1"
atty = "0.2"
base64 = "0.13"
env_logger = "0.9"
html5ever = "0.25"
kuchiki = "0.8"
log = "0.4"
mime_guess = "2"
minreq = "2"
once_cell = "1"
rayon = "1"
retry = "1"
structopt = "0.3"
url = "2"
