[package]
name = "irclog_archive"
version = "0.1.0"
edition = "2021"
publish = false

[dependencies]
bcrypt = "=0.13.0"
encoding_rs = "=0.8.42"
encoding_rs_io = "=0.1.8"
htpasswd-verify = "=0.3.0"
serde = { version = "*", features = ["derive"] }
serde_json = "*"
clap = "*"

[dev-dependencies]
pwhash = "=1.0.0"
