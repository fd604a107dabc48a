[package]
name = "mdpreviewer"
version = "0.1.0"
edition = "2021"
publish = false

[dependencies]
comrak = { version = "=0.55.0", default-features = false, features = ["bon"] }
libc = "=0.2.191"
notify = "=8.2.1"
open = "=5.4.5"
tiny_http = "=0.12.0"
