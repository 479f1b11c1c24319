[package]
name = "spec_drift"
version = "0.1.0"
edition = "2021"
publish = false

[dependencies]
anyhow = "1"
clap = { version = "4", features = ["derive"] }
globset = "0.4"
ignore = "0.4"
proc-macro2 = { version = "1", features = ["span-locations"] }
pulldown-cmark = "*"
quote = "1"
rayon = "1"
regex = "1"
serde = { version = "1", features = ["derive"] }
serde_json = "1"
syn = { version = "2", features = ["full"] }
thiserror = "*"
toml = "*"
ureq = { version = "2", features = ["json"] }

[dev-dependencies]
tempfile = "3"
