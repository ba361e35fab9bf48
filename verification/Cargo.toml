[package]
name = "sprites"
version = "0.1.0"
edition = "2021"
publish = false

[dependencies]
clap = { version = "4", features = ["derive"] }
exitcode = "1"
rayon = "1"
serde = { version = "1", features = ["derive"] }
serde_json = "1"
spreet = "0.8"
xmltree = { version = "0.10", features = ["attribute-order"] }

[dev-dependencies]
regex = "1"
