[package]
name = "muffle"
version = "0.1.0"
edition = "2021"
publish = false

[dependencies]
ariadne = "0.5"
regex = "1"
serde = { version = "1", features = ["derive"] }
toml = "0.8"
color-eyre = "0.6"
tracing = "0.1"
tracing-subscriber = { version = "0.3", features = ["env-filter"] }
directories = "6"
file-rotate = "0.8"
inotify = "0.11"
debounce = "0.2"
ctrlc = "3"
pipewire = "0.9"

[dev-dependencies]
chumsky = { version = "0.10", features = ["pratt"] }
