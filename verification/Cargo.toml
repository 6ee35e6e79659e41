[package]
name = "promptdoc"
version = "0.1.0"
edition = "2021"
publish = false

[dependencies]
dashmap = "*"
markdown = "1"
rayon = "*"
rhai = "*"
serde = { version = "*", features = ["derive"] }
