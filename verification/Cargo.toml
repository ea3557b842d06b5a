[package]
name = "lingora"
version = "0.1.0"
edition = "2021"
publish = false

[dependencies]
fluent4rs = "=2.3.1"
icu_locale_core = { version = "=2.4.0", features = ["alloc"] }
regex = "=1.13.1"
serde = { version = "=1.0.229", features = ["derive"] }
toml = "=1.2.1"
clap = { version = "=4.6.7", features = ["derive"] }
thiserror = "=2.0.21"
sys-locale = "=0.3.2"
walkdir = "=2.5.0"
unic-langid = "=0.9.6"
