[package]
name = "projectable"
version = "0.1.0"
edition = "2021"
publish = false

[dependencies]
ignore = "0.4"
globset = "0.4"
human-sort = "0.2"
fuzzy-matcher = "0.3"
bitvec = "1"
anyhow = "1"
crossterm = "0.26"
tui = { version = "0.19", default-features = false, features = ["crossterm"] }
serde = { version = "1", features = ["derive"] }
serde_json = "1"
toml = "0.7"
clap = { version = "4", features = ["derive"] }
crossbeam-channel = "0.5"
notify-debouncer-full = "0.1"
duct = "0.13"
dirs-next = "2"

[dev-dependencies]
assert_fs = "1"
