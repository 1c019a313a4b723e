[package]
name = "icemodoro"
version = "0.1.0"
edition = "2021"
publish = false

[dependencies]
chrono = { version = "=0.4.45", default-features = false, features = ["clock", "serde", "std"] }
directories-next = "=2.0.0"
iced = { version = "=0.13.1", default-features = false, features = ["tiny-skia", "tokio"] }
iced_aw = { version = "=0.12.2", default-features = false, features = ["tabs", "number_input"] }
notify-rust = { version = "=4.18.2", default-features = false, features = ["z-with-tokio"] }
rand = "=0.9.5"
rfd = { version = "0.15", default-features = false, features = ["xdg-portal", "tokio"] }
serde = { version = "=1.0.229", features = ["derive"] }
serde_json = "=1.0.154"
