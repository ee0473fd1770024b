[package]
name = "tributary"
version = "0.1.0"
edition = "2021"
publish = false

[dependencies]
biquad = "0.5"
flacenc = "*"
hound = "3"
midly = "0.5"
rayon = "1"
rtrb = "0.3"
rustix = { version = "1", features = ["process", "mm"] }
rustysynth = "1"
serde = { version = "1", features = ["derive"] }
serde_json = "1"
symphonia = { version = "*", default-features = false, features = ["flac"] }
thiserror = "2"
thread-priority = "*"
toml = "*"
tracing = "0.1"
