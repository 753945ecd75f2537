[package]
name = "hardbore"
version = "0.1.0"
edition = "2021"
publish = false

[dependencies]
rusqlite = { version = "*", features = ["bundled"] }
fuzzy-matcher = "*"
serde = { version = "*", features = ["derive"] }
serde_json = "*"
zbus = "*"
tokio = { version = "*", features = ["full"] }
jwalk = "*"
rayon = "*"
num_cpus = "*"
dirs = "*"

[dev-dependencies]
tempfile = "*"
