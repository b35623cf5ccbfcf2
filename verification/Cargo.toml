[package]
name = "rem-utils"
version = "0.1.0"
edition = "2021"
publish = false

[dependencies]
colored = "=2.2.0"
config = { version = "=0.14.1", default-features = false, features = ["toml"] }
diff = "=0.1.13"
home = "=0.5.12"
log = "=0.4.34"
quote = "=1.0.47"
regex = "=1.13.1"
serde = { version = "=1.0.229", features = ["derive"] }
string_cache = "=0.8.9"
syn = { version = "=1.0.109", features = ["full", "visit", "extra-traits"] }
