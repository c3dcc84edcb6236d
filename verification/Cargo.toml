[package]
name = "anki_typst"
version = "0.1.0"
edition = "2021"
publish = false

[dependencies]
base64 = "*"
regex = "*"
fasthash = "0.4"
serde = { version = "*", features = ["derive"] }
serde_json = "*"
serde_path_to_error = "*"
indexmap = { version = "*", features = ["serde"] }
ureq = { version = "2", default-features = false, features = ["json"] }
toml = "*"
directories-next = "*"
chrono = "0.4"
clap = { version = "4", features = ["derive"] }
notify = "*"
tempfile = "*"
