[package]
name = "mdbook_toc"
version = "0.1.0"
edition = "2021"
publish = false

[dependencies]
pulldown-cmark = { version = "=0.13.4", features = ["serde"] }
mdbook-preprocessor = "=0.5.4"
clap = { version = "=4.6.7", features = ["derive"] }
serde_json = "=1.0.151"
