[package]
name = "s_lf"
version = "0.1.0"
edition = "2021"
publish = false

[dependencies]
uuid = { version = "*", features = ["v4"] }
chrono = "*"
argh = "*"
reqwest = { version = "*", default-features = false, features = ["json"] }
tokio = { version = "*", features = ["macros", "rt-multi-thread"] }
serde = "*"
serde_derive = "*"
serde_json = "*"
serde_bytes = "*"
eyre = "*"
crossterm = "*"
linefeed = "*"
url = "*"
mime = "*"
vobject = "*"
erased-serde = "*"
