[package]
name = "lyrux_core"
version = "0.6.1"
edition = "2021"
publish = false

[dependencies]
sha2 = "0.10"
serde = { version = "1", features = ["derive"] }
serde_json = "1"
uuid = { version = "1", features = ["v4"] }
dirs = "5"
ureq = "2"
ignore = "0.4"
trash = "5"
notify = "6"
notify-debouncer-mini = "0.4"
nix = { version = "0.29", features = ["fs"] }
ec4rs = "1"
