[package]
name = "simple_sftp"
version = "0.1.0"
edition = "2021"
publish = false

[dependencies]
chrono = "0.4"
directories = "5"
serde = { version = "1", features = ["derive"] }
serde_json = "1"
ssh2 = "0.9"
tokio = { version = "1", features = ["rt-multi-thread", "sync", "time", "macros"] }
iced = { version = "0.13", default-features = false, features = ["tiny-skia", "tokio"] }
rfd = { version = "0.15", default-features = false, features = ["gtk3"] }
tray-icon = { version = "0.19", default-features = false }
gtk = "0.18"
