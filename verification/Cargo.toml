[package]
name = "derivers"
version = "0.1.0"
edition = "2021"
publish = false

[dependencies]
chrono = "0.4"
docopt = "1"
geo = { version = "*", default-features = false }
gpx = "*"
image = { version = "*", default-features = false, features = ["png", "pnm"] }
lazy_static = "1"
libc = "0.2"
palette = "0.6"
rayon = "1"
rusttype = "0.9"
serde = "1"
serde_derive = "1"
